//! The regions of parsed elements are nested: an element that stands inside
//! another covers a part of what the other covers, and the elements that
//! stand in one element cover parts that do not overlap.

use crate::elements::blocks::{
    cell_content, concat_all, row_content, BlockElementView, CellView, ListItemView, RowView,
};
use crate::elements::page::{element_nested, ElementView};
use crate::elements::inline::{
    in_order, inline_nested, inlines_within, Decoration, InlineElementView,
};
use crate::located::Located;
use crate::parsers::inline::{
    delimiter, spec_decorated_as, spec_decorated_text, spec_inline_element, spec_inline_line,
    spec_non_text,
};
use crate::parsers::blocks::code::used;
use crate::parsers::blocks::lists::{
    spec_item_line, spec_list_item, spec_list_items, spec_marker, spec_more_line, spec_more_lines,
};
use crate::parsers::blocks::paragraphs::{spec_paragraph_line, spec_paragraph_lines};
use crate::parsers::blocks::spec_block_component_bare;
use crate::parsers::blocks::tables::{
    bar, spec_cell, spec_cells, spec_row, spec_rows,
};
use crate::parsers::page::spec_blocks;
use crate::parsers::scanning::{
    leading_spaces, lemma_line_until_stops, lemma_scan_len_stops, line_ending_len,
    line_until_len, tail, trailing_spaces, while_digit, while_space,
};
use crate::parsers::utils::spec_surround_in_line1;
use crate::span::Span;
use crate::tree::{regions_nested, siblings_apart, ElementTree};
use vstd::prelude::*;

verus! {

/// Whether `items` stand one after the other and cover only offsets from
/// `from` up to, and without, `to`, with what is inside each nested in
/// turn. This asks that `from` is not after `to`.
pub open spec fn inlines_in(items: Seq<Located<InlineElementView>>, from: int, to: int) -> bool {
    &&& from <= to
    &&& in_order(items)
    &&& forall|i: int|
        0 <= i < items.len() ==> from <= (#[trigger] items[i]).region.offset
            && items[i].region.spec_end() <= to && inline_nested(items[i])
}

/// Elements that lie between two offsets lie between offsets further
/// apart.
pub proof fn lemma_inlines_in_wider(
    items: Seq<Located<InlineElementView>>,
    from: int,
    to: int,
    low: int,
    high: int,
)
    requires
        inlines_in(items, from, to),
        low <= from,
        to <= high,
    ensures
        inlines_in(items, low, high),
{
}

/// Elements up to an offset and elements from that offset on stand one
/// after the other when joined.
pub proof fn lemma_inlines_in_joined(
    a: Seq<Located<InlineElementView>>,
    b: Seq<Located<InlineElementView>>,
    from: int,
    mid: int,
    to: int,
)
    requires
        inlines_in(a, from, mid),
        inlines_in(b, mid, to),
    ensures
        inlines_in(a + b, from, to),
{
    let c = a + b;
    assert forall|i: int| 0 <= i < c.len() implies from <= (#[trigger] c[i]).region.offset
        && c[i].region.spec_end() <= to && inline_nested(c[i]) by {
        if i < a.len() {
            assert(c[i] == a[i]);
        } else {
            assert(c[i] == b[i - a.len()]);
        }
    }
    assert forall|i: int, j: int| 0 <= i < j < c.len() implies (#[trigger] c[i]).region.spec_end()
        <= (#[trigger] c[j]).region.offset by {
        if j < a.len() {
            assert(c[i] == a[i] && c[j] == a[j]);
        } else if i >= a.len() {
            assert(c[i] == b[i - a.len()] && c[j] == b[j - a.len()]);
        } else {
            assert(c[i] == a[i] && c[j] == b[j - a.len()]);
        }
    }
}

/// One element on the first `n` characters of a span.
pub proof fn lemma_inlines_in_one(input: Span, e: InlineElementView, n: int)
    requires
        input.wf(),
        0 <= n <= input.spec_len(),
        inline_nested(Located { value: e, region: input.region_of(n) }),
    ensures
        inlines_in(
            seq![Located { value: e, region: input.region_of(n) }],
            input.start as int,
            input.start + n,
        ),
{
}

/// The first of some lists joined, and then the others.
pub proof fn lemma_concat_front<T>(x: Seq<T>, v: Seq<Seq<T>>)
    ensures
        concat_all(seq![x] + v) == x + concat_all(v),
    decreases v.len(),
{
    let all = seq![x] + v;
    if v.len() == 0 {
        assert(all.drop_last() =~= Seq::empty());
        assert(concat_all(all.drop_last()) =~= Seq::empty());
        assert(all.last() == x);
        assert(concat_all(all) =~= x);
        assert(x + concat_all(v) =~= x);
    } else {
        assert(all.drop_last() =~= seq![x] + v.drop_last());
        assert(all.last() == v.last());
        lemma_concat_front(x, v.drop_last());
        assert(x + concat_all(v.drop_last()) + v.last() =~= x + (concat_all(v.drop_last())
            + v.last()));
    }
}

/// Elements that lie within the first `n` characters of a span lie within
/// the region of those characters.
pub proof fn lemma_in_region(input: Span, items: Seq<Located<InlineElementView>>, n: int)
    requires
        input.wf(),
        0 <= n <= input.spec_len(),
        inlines_in(items, input.start as int, input.start + n),
    ensures
        inlines_within(items, input.region_of(n)),
{
}

/// Decorated text that was read has its content nested within it.
pub proof fn lemma_decorated_nested(input: Span, d: Decoration)
    requires
        input.wf(),
        spec_decorated_as(input, d) is Some,
        0 <= spec_decorated_as(input, d).unwrap().1 <= input.spec_len(),
    ensures
        inline_nested(
            Located {
                value: spec_decorated_as(input, d).unwrap().0,
                region: input.region_of(spec_decorated_as(input, d).unwrap().1),
            },
        ),
    decreases input.spec_len(), 0int,
{
    let (from, len, total) = spec_surround_in_line1(input@, delimiter(d), delimiter(d)).unwrap();
    let content = input.skip(from).first(len);
    input.lemma_skip(from);
    input.skip(from).lemma_first(len);
    lemma_inline_line_nested(content);
    let inner = spec_inline_line(content);
    let whole = Located {
        value: spec_decorated_as(input, d).unwrap().0,
        region: input.region_of(total),
    };
    assert(whole.value == InlineElementView::DecoratedText(d, inner.0));
    assert forall|i: int| 0 <= i < inner.0.len() implies whole.region.spec_encloses(
        (#[trigger] inner.0[i]).region,
    ) && inline_nested(inner.0[i]) by {}
}

/// An inline element that was read has what is inside it nested within it.
pub proof fn lemma_inline_element_nested(input: Span)
    requires
        input.wf(),
        spec_inline_element(input) is Some,
        0 <= spec_inline_element(input).unwrap().1 <= input.spec_len(),
    ensures
        inline_nested(
            Located {
                value: spec_inline_element(input).unwrap().0,
                region: input.region_of(spec_inline_element(input).unwrap().1),
            },
        ),
    decreases input.spec_len(), 4int,
{
    let (e, n) = spec_inline_element(input).unwrap();
    if let InlineElementView::DecoratedText(d, c) = e {
        assert(spec_non_text(input) is Some);
        assert(spec_decorated_text(input) == Some((e, n)));
        if spec_decorated_as(input, Decoration::Bold) is Some {
            lemma_decorated_nested(input, Decoration::Bold);
        } else if spec_decorated_as(input, Decoration::Italic) is Some {
            lemma_decorated_nested(input, Decoration::Italic);
        } else if spec_decorated_as(input, Decoration::Strikethrough) is Some {
            lemma_decorated_nested(input, Decoration::Strikethrough);
        } else if spec_decorated_as(input, Decoration::Superscript) is Some {
            lemma_decorated_nested(input, Decoration::Superscript);
        } else {
            lemma_decorated_nested(input, Decoration::Subscript);
        }
    }
}

/// The inline elements that were read from a span stand one after the
/// other within what was consumed for them, each with what is inside it
/// nested within it.
pub proof fn lemma_inline_line_nested(input: Span)
    requires
        input.wf(),
    ensures
        0 <= spec_inline_line(input).1 <= input.spec_len(),
        inlines_in(
            spec_inline_line(input).0,
            input.start as int,
            input.start + spec_inline_line(input).1,
        ),
    decreases input.spec_len(), 5int,
{
    match spec_inline_element(input) {
        Some((e, n)) => {
            if 0 < n <= input.spec_len() {
                input.lemma_skip(n);
                lemma_inline_element_nested(input);
                lemma_inline_line_nested(input.skip(n));
                let more = spec_inline_line(input.skip(n));
                let first = seq![Located { value: e, region: input.region_of(n) }];
                lemma_inlines_in_one(input, e, n);
                lemma_inlines_in_joined(
                    first,
                    more.0,
                    input.start as int,
                    input.start + n,
                    input.start + n + more.1,
                );
            }
        },
        None => {},
    }
}

/// The spaces at the front of a text are part of it.
pub proof fn lemma_spaces_within(s: Seq<char>)
    ensures
        0 <= leading_spaces(s) <= s.len(),
{
    lemma_scan_len_stops(s, while_space());
}

/// The inline elements of the lines of a paragraph stand one after the
/// other within what was consumed for them.
pub proof fn lemma_paragraph_lines_nested(input: Span)
    requires
        input.wf(),
    ensures
        0 <= spec_paragraph_lines(input).1 <= input.spec_len(),
        inlines_in(
            spec_paragraph_lines(input).0,
            input.start as int,
            input.start + spec_paragraph_lines(input).1,
        ),
    decreases input.spec_len(),
{
    match spec_paragraph_line(input) {
        Some((items, n)) => {
            if 0 < n <= input.spec_len() {
                input.lemma_skip(n);
                lemma_inline_line_nested(input);
                lemma_paragraph_lines_nested(input.skip(n));
                let more = spec_paragraph_lines(input.skip(n));
                assert(items == spec_inline_line(input).0);
                lemma_inlines_in_wider(
                    items,
                    input.start as int,
                    input.start + spec_inline_line(input).1,
                    input.start as int,
                    input.start + n,
                );
                lemma_inlines_in_joined(
                    items,
                    more.0,
                    input.start as int,
                    input.start + n,
                    input.start + n + more.1,
                );
            }
        },
        None => {},
    }
}

/// The marker of a list item is part of the text that it is read from.
pub proof fn lemma_marker_within(s: Seq<char>)
    ensures
        0 <= used(spec_marker(s)) <= s.len(),
{
    reveal_strlit("-");
    reveal_strlit("*");
    reveal_strlit("#");
    reveal_strlit(".");
    reveal_strlit(")");
    lemma_scan_len_stops(s, while_digit());
}

/// The content of the first line of a list item lies within the line.
pub proof fn lemma_item_line_nested(input: Span)
    requires
        input.wf(),
        spec_item_line(input) is Some,
    ensures
        0 <= spec_item_line(input).unwrap().1 <= input.spec_len(),
        inlines_in(
            spec_item_line(input).unwrap().0.content,
            input.start as int,
            input.start + spec_item_line(input).unwrap().1,
        ),
{
    let s0 = input@;
    let a = leading_spaces(s0);
    lemma_spaces_within(s0);
    let s1 = tail(s0, a);
    let m = spec_marker(s1);
    lemma_marker_within(s1);
    let s2 = tail(s1, used(m));
    let sp = leading_spaces(s2);
    lemma_spaces_within(s2);
    let k = a + used(m) + sp;
    let at = input.skip(k);
    input.lemma_skip(k);
    lemma_inline_line_nested(at);
    let content = spec_inline_line(at);
    let after = tail(at@, content.1);
    let n = k + content.1 + line_ending_len(after);
    lemma_inlines_in_wider(
        content.0,
        at.start as int,
        at.start + content.1,
        input.start as int,
        input.start + n,
    );
}

/// The content of a line that goes on with a list item lies within the
/// line.
pub proof fn lemma_more_line_nested(input: Span, level: int)
    requires
        input.wf(),
        spec_more_line(input, level) is Some,
    ensures
        0 <= spec_more_line(input, level).unwrap().1 <= input.spec_len(),
        inlines_in(
            spec_more_line(input, level).unwrap().0,
            input.start as int,
            input.start + spec_more_line(input, level).unwrap().1,
        ),
{
    let s0 = input@;
    let a = leading_spaces(s0);
    lemma_spaces_within(s0);
    let at = input.skip(a);
    input.lemma_skip(a);
    lemma_inline_line_nested(at);
    let content = spec_inline_line(at);
    let after = tail(at@, content.1);
    let n = a + content.1 + line_ending_len(after);
    lemma_inlines_in_wider(
        content.0,
        at.start as int,
        at.start + content.1,
        input.start as int,
        input.start + n,
    );
}

/// The content of the lines that go on with a list item lies within the
/// lines.
pub proof fn lemma_more_lines_nested(input: Span, level: int)
    requires
        input.wf(),
    ensures
        0 <= spec_more_lines(input, level).1 <= input.spec_len(),
        inlines_in(
            spec_more_lines(input, level).0,
            input.start as int,
            input.start + spec_more_lines(input, level).1,
        ),
    decreases input.spec_len(),
{
    match spec_more_line(input, level) {
        Some((items, n)) => {
            if 0 < n <= input.spec_len() {
                input.lemma_skip(n);
                lemma_more_line_nested(input, level);
                lemma_more_lines_nested(input.skip(n), level);
                let more = spec_more_lines(input.skip(n), level);
                lemma_inlines_in_joined(
                    items,
                    more.0,
                    input.start as int,
                    input.start + n,
                    input.start + n + more.1,
                );
            }
        },
        None => {},
    }
}

/// The content of a list item lies within the lines of the item.
pub proof fn lemma_list_item_nested(input: Span)
    requires
        input.wf(),
        spec_list_item(input) is Some,
    ensures
        0 <= spec_list_item(input).unwrap().1 <= input.spec_len(),
        inlines_in(
            spec_list_item(input).unwrap().0.content,
            input.start as int,
            input.start + spec_list_item(input).unwrap().1,
        ),
{
    let (item, n) = spec_item_line(input).unwrap();
    lemma_item_line_nested(input);
    input.lemma_skip(n);
    lemma_more_lines_nested(input.skip(n), item.level as int);
    let more = spec_more_lines(input.skip(n), item.level as int);
    lemma_inlines_in_joined(
        item.content,
        more.0,
        input.start as int,
        input.start + n,
        input.start + n + more.1,
    );
}

/// The inline elements of the items of a list, item after item.
pub open spec fn list_content(items: Seq<ListItemView>) -> Seq<Located<InlineElementView>> {
    BlockElementView::List(items).children()
}

/// The content of the items of a list lies within the lines of the list.
pub proof fn lemma_list_items_nested(input: Span)
    requires
        input.wf(),
    ensures
        0 <= spec_list_items(input).1 <= input.spec_len(),
        inlines_in(
            list_content(spec_list_items(input).0),
            input.start as int,
            input.start + spec_list_items(input).1,
        ),
    decreases input.spec_len(),
{
    match spec_list_item(input) {
        Some((item, n)) => {
            if 0 < n <= input.spec_len() {
                input.lemma_skip(n);
                lemma_list_item_nested(input);
                lemma_list_items_nested(input.skip(n));
                let more = spec_list_items(input.skip(n));
                let all = seq![item] + more.0;
                let f = |i: ListItemView| i.content;
                assert(all.map_values(f) =~= seq![item.content] + more.0.map_values(f));
                lemma_concat_front(item.content, more.0.map_values(f));
                lemma_inlines_in_joined(
                    item.content,
                    list_content(more.0),
                    input.start as int,
                    input.start + n,
                    input.start + n + more.1,
                );
            } else {
                assert(Seq::<ListItemView>::empty().map_values(|i: ListItemView| i.content)
                    =~= Seq::empty());
            }
        },
        None => {
            assert(Seq::<ListItemView>::empty().map_values(|i: ListItemView| i.content)
                =~= Seq::empty());
        },
    }
}

/// The spaces at the end of a text are part of it.
pub proof fn lemma_trailing_within(s: Seq<char>)
    ensures
        0 <= trailing_spaces(s) <= s.len(),
    decreases s.len(),
{
    if s.len() > 0 {
        lemma_trailing_within(s.drop_last());
    }
}

/// The content of a cell of a table lies within the cell.
pub proof fn lemma_cell_nested(input: Span)
    requires
        input.wf(),
        spec_cell(input) is Some,
    ensures
        0 <= spec_cell(input).unwrap().1 <= input.spec_len(),
        inlines_in(
            cell_content(spec_cell(input).unwrap().0.0),
            input.start as int,
            input.start + spec_cell(input).unwrap().1,
        ),
{
    reveal_strlit("|");
    let m = line_until_len(input@, bar());
    lemma_line_until_stops(input@, bar());
    let whole = input.first(m);
    input.lemma_first(m);
    let a = leading_spaces(whole@);
    lemma_spaces_within(whole@);
    let cut = whole.skip(a);
    whole.lemma_skip(a);
    let t = trailing_spaces(cut@);
    lemma_trailing_within(cut@);
    let inner = cut.first(cut@.len() - t);
    cut.lemma_first(cut@.len() - t);
    assert(inner == whole.spec_trim());
    lemma_inline_line_nested(inner);
    let n = spec_cell(input).unwrap().1;
    lemma_inlines_in_wider(
        spec_inline_line(inner).0,
        inner.start as int,
        inner.start + spec_inline_line(inner).1,
        input.start as int,
        input.start + n,
    );
}

/// The inline elements of some cells, cell after cell.
pub open spec fn cells_content(cells: Seq<CellView>) -> Seq<Located<InlineElementView>> {
    row_content(RowView::Content { cells })
}

/// The cells without their flags.
pub open spec fn bare_cells(cells: Seq<(CellView, bool)>) -> Seq<CellView> {
    cells.map_values(|c: (CellView, bool)| c.0)
}

/// The content of the cells of a row lies within the cells of the row.
pub proof fn lemma_cells_nested(input: Span)
    requires
        input.wf(),
    ensures
        0 <= spec_cells(input).1 <= input.spec_len(),
        inlines_in(
            cells_content(bare_cells(spec_cells(input).0)),
            input.start as int,
            input.start + spec_cells(input).1,
        ),
    decreases input.spec_len(),
{
    let f = |c: CellView| cell_content(c);
    match spec_cell(input) {
        Some((c, n)) => {
            if 0 < n <= input.spec_len() {
                input.lemma_skip(n);
                lemma_cell_nested(input);
                lemma_cells_nested(input.skip(n));
                let more = spec_cells(input.skip(n));
                let all = seq![c] + more.0;
                assert(bare_cells(all) =~= seq![c.0] + bare_cells(more.0));
                assert(bare_cells(all).map_values(f) =~= seq![cell_content(c.0)] + bare_cells(
                    more.0,
                ).map_values(f));
                lemma_concat_front(cell_content(c.0), bare_cells(more.0).map_values(f));
                lemma_inlines_in_joined(
                    cell_content(c.0),
                    cells_content(bare_cells(more.0)),
                    input.start as int,
                    input.start + n,
                    input.start + n + more.1,
                );
            } else {
                assert(bare_cells(Seq::empty()) =~= Seq::empty());
                assert(Seq::<CellView>::empty().map_values(f) =~= Seq::empty());
            }
        },
        None => {
            assert(bare_cells(Seq::empty()) =~= Seq::empty());
            assert(Seq::<CellView>::empty().map_values(f) =~= Seq::empty());
        },
    }
}

/// The content of a row of a table lies within the line of the row.
pub proof fn lemma_row_nested(input: Span)
    requires
        input.wf(),
        spec_row(input) is Some,
    ensures
        0 <= spec_row(input).unwrap().1 <= input.spec_len(),
        inlines_in(
            row_content(spec_row(input).unwrap().0),
            input.start as int,
            input.start + spec_row(input).unwrap().1,
        ),
{
    reveal_strlit("|");
    let s0 = input@;
    let a = leading_spaces(s0);
    lemma_spaces_within(s0);
    let s1 = tail(s0, a);
    let at = input.skip(a + "|"@.len());
    input.lemma_skip(a + "|"@.len());
    lemma_cells_nested(at);
    let cells = spec_cells(at);
    let s3 = tail(at@, cells.1);
    let b = leading_spaces(s3);
    lemma_spaces_within(s3);
    let s4 = tail(s3, b);
    let (row, n) = spec_row(input).unwrap();
    match row {
        RowView::Content { cells: held } => {
            assert(held == bare_cells(cells.0));
            lemma_inlines_in_wider(
                cells_content(held),
                at.start as int,
                at.start + cells.1,
                input.start as int,
                input.start + n,
            );
        },
        RowView::Divider => {},
    }
}

/// The inline elements of the rows of a table, row after row.
pub open spec fn rows_content(rows: Seq<RowView>) -> Seq<Located<InlineElementView>> {
    concat_all(rows.map_values(|r: RowView| row_content(r)))
}

/// The content of the rows of a table lies within the lines of the table.
pub proof fn lemma_rows_nested(input: Span)
    requires
        input.wf(),
    ensures
        0 <= spec_rows(input).1 <= input.spec_len(),
        inlines_in(
            rows_content(spec_rows(input).0),
            input.start as int,
            input.start + spec_rows(input).1,
        ),
    decreases input.spec_len(),
{
    let f = |r: RowView| row_content(r);
    match spec_row(input) {
        Some((r, n)) => {
            if 0 < n <= input.spec_len() {
                input.lemma_skip(n);
                lemma_row_nested(input);
                lemma_rows_nested(input.skip(n));
                let more = spec_rows(input.skip(n));
                let all = seq![r] + more.0;
                assert(all.map_values(f) =~= seq![row_content(r)] + more.0.map_values(f));
                lemma_concat_front(row_content(r), more.0.map_values(f));
                lemma_inlines_in_joined(
                    row_content(r),
                    rows_content(more.0),
                    input.start as int,
                    input.start + n,
                    input.start + n + more.1,
                );
            } else {
                assert(Seq::<RowView>::empty().map_values(f) =~= Seq::empty());
            }
        },
        None => {
            assert(Seq::<RowView>::empty().map_values(f) =~= Seq::empty());
        },
    }
}

/// A block element that was read has the inline elements inside it, at any
/// depth, nested: each lies within the region of the element that it
/// stands in directly, and those that stand in one element stand one after
/// the other.
pub proof fn lemma_block_nested(input: Span)
    requires
        input.wf(),
        spec_block_component_bare(input) is Some,
    ensures
        element_nested(
            Located {
                value: ElementView::Block(spec_block_component_bare(input).unwrap().0),
                region: input.region_of(spec_block_component_bare(input).unwrap().1),
            },
        ),
{
    let (b, n) = spec_block_component_bare(input).unwrap();
    match b {
        BlockElementView::Paragraph(c) => {
            lemma_paragraph_lines_nested(input);
            lemma_in_region(input, c, n);
        },
        BlockElementView::List(items) => {
            lemma_list_items_nested(input);
            lemma_in_region(input, list_content(items), n);
        },
        BlockElementView::Table(t) => {
            lemma_rows_nested(input);
            lemma_in_region(input, rows_content(t.rows), n);
        },
        _ => {},
    }
}

/// Each block element of a page that was read has the inline elements
/// inside it nested.
pub proof fn lemma_blocks_nested(input: Span)
    requires
        input.wf(),
    ensures
        forall|k: int|
            0 <= k < spec_blocks(input).0.len() ==> element_nested(
                Located {
                    value: ElementView::Block((#[trigger] spec_blocks(input).0[k]).value),
                    region: spec_blocks(input).0[k].region,
                },
            ),
    decreases input.spec_len(),
{
    match spec_block_component_bare(input) {
        Some((b, n)) => {
            if 0 < n <= input.spec_len() {
                input.lemma_skip(n);
                lemma_block_nested(input);
                lemma_blocks_nested(input.skip(n));
                let more = spec_blocks(input.skip(n));
                let all = spec_blocks(input).0;
                assert forall|k: int| 0 <= k < all.len() implies element_nested(
                    Located {
                        value: ElementView::Block((#[trigger] all[k]).value),
                        region: all[k].region,
                    },
                ) by {
                    if k > 0 {
                        assert(all[k] == more.0[k - 1]);
                    }
                }
            }
        },
        None => {},
    }
}

/// In the tree of a block element that was read, the region of each node
/// lies within the region of its parent, and the children of a node stand
/// one after the other.
pub proof fn lemma_block_tree_nested(input: Span, tree: ElementTree)
    requires
        input.wf(),
        tree.wf(),
        spec_block_component_bare(input) is Some,
        tree@[tree.spec_root_id()].data@ == (Located {
            value: ElementView::Block(spec_block_component_bare(input).unwrap().0),
            region: input.region_of(spec_block_component_bare(input).unwrap().1),
        }),
    ensures
        regions_nested(tree@),
        siblings_apart(tree@),
{
    lemma_block_nested(input);
    tree.lemma_nested();
}

/// In the tree of an inline element that was read, the region of each node
/// lies within the region of its parent, and the children of a node stand
/// one after the other.
pub proof fn lemma_inline_tree_nested(input: Span, tree: ElementTree)
    requires
        input.wf(),
        tree.wf(),
        spec_inline_element(input) is Some,
        0 <= spec_inline_element(input).unwrap().1 <= input.spec_len(),
        tree@[tree.spec_root_id()].data@ == (Located {
            value: ElementView::Inline(spec_inline_element(input).unwrap().0),
            region: input.region_of(spec_inline_element(input).unwrap().1),
        }),
    ensures
        regions_nested(tree@),
        siblings_apart(tree@),
{
    lemma_inline_element_nested(input);
    tree.lemma_nested();
}

} // verus!
