//! Tables: lines of cells between `|`.

use crate::elements::blocks::{cells_view, rows_view, Cell, CellView, Row, RowView, Table, TableView};
use crate::elements::inline::InlineElementContainer;
use crate::error::LangParserError;
use crate::located::Located;
use crate::parsers::inline::{inline_line, spec_inline_line};
use crate::parsers::scanning::{
    at_end_of_line, leading_spaces, line_ending_len, line_until_len, strs_view, tail,
};
use crate::parsers::utils::{
    context, le, parse_agrees, skip_eol, skip_spaces, skip_tag, spec_located, take_until,
    IResult,
};
use crate::span::Span;
use vstd::prelude::*;

verus! {

/// What ends a cell.
pub open spec fn bar() -> Seq<Seq<char>> {
    seq!["|"@]
}

/// Whether a cell is part of the line that parts the header of a table
/// from its body: it holds `-` and `+` only, and at least one of them.
pub open spec fn is_rule(text: Seq<char>) -> bool {
    text.len() > 0 && forall|i: int| 0 <= i < text.len() ==> is_rule_char(#[trigger] text[i])
}

pub open spec fn is_rule_char(c: char) -> bool {
    c == '-' || c == '+'
}

/// What the content of a cell, without the spaces at its ends, stands for:
/// `>` and `\/` for a cell that belongs to its neighbour, and inline
/// elements otherwise.
pub open spec fn spec_cell_of(inner: Span) -> CellView {
    if inner@ == ">"@ {
        CellView::SpanLeft
    } else if inner@ == "\\/"@ {
        CellView::SpanAbove
    } else {
        CellView::Content(spec_inline_line(inner).0)
    }
}

/// The cell at the front of `input`: what stands before the next `|`, and
/// whether it is part of a rule.
pub open spec fn spec_cell(input: Span) -> Option<((CellView, bool), int)> {
    let n = line_until_len(input@, bar());
    let inner = input.first(n).spec_trim();
    if "|"@.is_prefix_of(tail(input@, n)) {
        Some(((spec_cell_of(inner), is_rule(inner@)), n + "|"@.len()))
    } else {
        None
    }
}

/// The cells at the front of `input`.
pub open spec fn spec_cells(input: Span) -> (Seq<(CellView, bool)>, int)
    decreases input.spec_len(),
{
    match spec_cell(input) {
        Some((c, n)) => if 0 < n <= input.spec_len() {
            let more = spec_cells(input.skip(n));
            (seq![c] + more.0, n + more.1)
        } else {
            (Seq::empty(), 0)
        },
        None => (Seq::empty(), 0),
    }
}

/// Whether all cells are part of a rule.
pub open spec fn all_rules(cells: Seq<(CellView, bool)>) -> bool {
    forall|i: int| 0 <= i < cells.len() ==> (#[trigger] cells[i]).1
}

/// The row that a line of cells is: the line that parts header and body if
/// all its cells are part of a rule, and a row of cells otherwise.
pub open spec fn spec_row_of(cells: Seq<(CellView, bool)>) -> RowView {
    if all_rules(cells) {
        RowView::Divider
    } else {
        RowView::Content { cells: cells.map_values(|c: (CellView, bool)| c.0) }
    }
}

/// The row at the front of `input`: a line that holds `|`, which spaces
/// may precede, at least one cell, each with `|` after it, and nothing
/// else but spaces.
pub open spec fn spec_row(input: Span) -> Option<(RowView, int)> {
    let s0 = input@;
    let a = leading_spaces(s0);
    let s1 = tail(s0, a);
    let at = input.skip(a + "|"@.len());
    let cells = spec_cells(at);
    let s3 = tail(at@, cells.1);
    let b = leading_spaces(s3);
    let s4 = tail(s3, b);
    if input.spec_at_line_start() && "|"@.is_prefix_of(s1) && cells.0.len() > 0 && at_end_of_line(
        s4,
    ) {
        Some((spec_row_of(cells.0), a + "|"@.len() + cells.1 + b + line_ending_len(s4)))
    } else {
        None
    }
}

/// The rows at the front of `input`.
pub open spec fn spec_rows(input: Span) -> (Seq<RowView>, int)
    decreases input.spec_len(),
{
    match spec_row(input) {
        Some((r, n)) => if 0 < n <= input.spec_len() {
            let more = spec_rows(input.skip(n));
            (seq![r] + more.0, n + more.1)
        } else {
            (Seq::empty(), 0)
        },
        None => (Seq::empty(), 0),
    }
}

/// What `table` yields, before it is located: rows, at least one. The
/// table is centered if its first line begins with a space.
pub open spec fn spec_table(input: Span) -> Option<(TableView, int)> {
    let r = spec_rows(input);
    if r.0.len() > 0 {
        Some((TableView { rows: r.0, centered: leading_spaces(input@) > 0 }, r.1))
    } else {
        None
    }
}

/// Tells whether the input holds `-` and `+` only, and at least one.
pub fn span_is_rule<'a>(input: &Span<'a>) -> (r: bool)
    requires
        input.wf(),
    ensures
        r == is_rule(input@),
{
    if input.len() == 0 {
        return false;
    }
    let mut i: usize = 0;
    while i < input.len()
        invariant
            input.wf(),
            i <= input@.len(),
            forall|k: int| 0 <= k < i ==> is_rule_char(#[trigger] input@[k]),
        decreases input@.len() - i,
    {
        let c = input.get(i);
        if !(c == '-' || c == '+') {
            return false;
        }
        i += 1;
    }
    true
}

/// The views of a list of cells with their flags.
pub open spec fn flagged_view(cells: Seq<Cell<'static>>, flags: Seq<bool>) -> Seq<(CellView, bool)> {
    Seq::new(cells.len(), |i: int| (cells[i]@, flags[i]))
}

/// Parses one cell.
pub fn cell<'a>(input: Span<'a>) -> (r: Option<(Span<'a>, Cell<'static>, bool)>)
    requires
        input.wf(),
    ensures
        match r {
            Some((rest, c, rule)) => {
                &&& spec_cell(input) == Some(((c@, rule), rest.start - input.start))
                &&& input.leads_to(rest)
                &&& rest.wf()
                &&& rest.start > input.start
            },
            None => spec_cell(input) is None,
        },
{
    proof {
        reveal_strlit("|");
        reveal_strlit(">");
        reveal_strlit("\\/");
    }
    let stops = ["|"];
    proof {
        assert(strs_view(stops@) =~= bar());
    }
    let (after, raw) = take_until(input, stops.as_slice());
    let rest = match skip_tag(after, "|") {
        Some(x) => x,
        None => {
            return None;
        },
    };
    proof {
        input.lemma_leads_to_trans(after, rest);
    }
    let inner = raw.trim();
    let rule = span_is_rule(&inner);
    let c = if inner.len() == 1 && inner.get(0) == '>' {
        proof {
            assert(inner@ =~= ">"@);
        }
        Cell::SpanLeft
    } else if inner.len() == 2 && inner.get(0) == '\\' && inner.get(1) == '/' {
        proof {
            assert(inner@ =~= "\\/"@);
        }
        Cell::SpanAbove
    } else {
        let (_, elements) = inline_line(inner);
        Cell::Content(InlineElementContainer::new(elements))
    };
    Some((rest, c, rule))
}

/// Parses one row.
pub fn row<'a>(input: Span<'a>) -> (r: Option<(Span<'a>, Row<'static>)>)
    requires
        input.wf(),
    ensures
        match r {
            Some((rest, row)) => {
                &&& spec_row(input) == Some((row@, rest.start - input.start))
                &&& input.leads_to(rest)
                &&& rest.wf()
                &&& rest.start > input.start
                &&& rest.at_boundary()
            },
            None => spec_row(input) is None,
        },
{
    proof {
        reveal_strlit("|");
    }
    if !input.at_line_start() {
        return None;
    }
    let s1 = skip_spaces(input);
    let at = match skip_tag(s1, "|") {
        Some(x) => x,
        None => {
            return None;
        },
    };
    proof {
        input.lemma_leads_to_trans(s1, at);
    }
    let mut cells: Vec<Cell<'static>> = Vec::new();
    let mut only_rules = true;
    let ghost mut flags: Seq<bool> = Seq::empty();
    let mut cur = at;
    let mut done = false;
    proof {
        at.lemma_skip(0);
        assert(flagged_view(cells@, flags) =~= Seq::empty());
        assert(Seq::<(CellView, bool)>::empty() + spec_cells(at).0 =~= spec_cells(at).0);
    }
    while !done
        invariant
            at.wf(),
            cur.wf(),
            at.leads_to(cur),
            flags.len() == cells@.len(),
            only_rules == all_rules(flagged_view(cells@, flags)),
            spec_cells(at).0 == flagged_view(cells@, flags) + spec_cells(cur).0,
            spec_cells(at).1 == (cur.start - at.start) + spec_cells(cur).1,
            done ==> spec_cells(cur).1 == 0 && spec_cells(cur).0.len() == 0,
        decreases cur.spec_len() + (if done { 0int } else { 1int }),
    {
        match cell(cur) {
            Some((next, c, rule)) => {
                proof {
                    at.lemma_leads_to_trans(cur, next);
                    let before = flagged_view(cells@, flags);
                    let more = spec_cells(next);
                    assert(before + (seq![(c@, rule)] + more.0) =~= before.push((c@, rule))
                        + more.0);
                }
                let ghost before = flagged_view(cells@, flags);
                let ghost cv = c@;
                cells.push(c);
                proof {
                    flags = flags.push(rule);
                    assert(flagged_view(cells@, flags) =~= before.push((cv, rule)));
                    if only_rules && rule {
                        assert forall|i: int| 0 <= i < before.push((cv, rule)).len() implies (
                        #[trigger] before.push((cv, rule))[i]).1 by {
                            if i < before.len() {
                                assert(before[i].1);
                            }
                        }
                    } else if !rule {
                        assert(!before.push((cv, rule))[before.len() as int].1);
                    } else {
                        let j = choose|j: int| 0 <= j < before.len() && !(#[trigger] before[j]).1;
                        assert(!before.push((cv, rule))[j].1);
                    }
                }
                only_rules = only_rules && rule;
                cur = next;
            },
            None => {
                done = true;
            },
        }
    }
    proof {
        assert(flagged_view(cells@, flags) + Seq::<(CellView, bool)>::empty() =~= flagged_view(
            cells@,
            flags,
        ));
        at.lemma_skip(cur.start - at.start);
        input.lemma_leads_to_trans(at, cur);
    }
    if cells.len() == 0 {
        return None;
    }
    let s3 = skip_spaces(cur);
    let rest = match skip_eol(s3) {
        Some(x) => x,
        None => {
            return None;
        },
    };
    proof {
        input.lemma_leads_to_trans(cur, s3);
        input.lemma_leads_to_trans(s3, rest);
        assert(cells_view(cells@) =~= flagged_view(cells@, flags).map_values(
            |c: (CellView, bool)| c.0,
        ));
    }
    if only_rules {
        Some((rest, Row::Divider))
    } else {
        Some((rest, Row::Content { cells }))
    }
}

/// Parses a table, before it is located.
pub fn table_bare<'a>(input: Span<'a>) -> (r: IResult<'a, Table<'static>>)
    requires
        input.wf(),
    ensures
        parse_agrees(r, input, spec_table(input)),
        r matches Ok((rest, _)) ==> rest.start > input.start && rest.at_boundary(),
{
    let mut rows: Vec<Row<'static>> = Vec::new();
    let mut cur = input;
    let mut done = false;
    proof {
        input.lemma_skip(0);
        assert(rows_view(rows@) =~= Seq::empty());
        assert(Seq::<RowView>::empty() + spec_rows(input).0 =~= spec_rows(input).0);
    }
    while !done
        invariant
            input.wf(),
            cur.wf(),
            input.leads_to(cur),
            spec_rows(input).0 == rows_view(rows@) + spec_rows(cur).0,
            spec_rows(input).1 == (cur.start - input.start) + spec_rows(cur).1,
            done ==> spec_rows(cur).1 == 0 && spec_rows(cur).0.len() == 0,
            rows@.len() > 0 ==> cur.start > input.start && cur.at_boundary(),
        decreases cur.spec_len() + (if done { 0int } else { 1int }),
    {
        match row(cur) {
            Some((next, r)) => {
                proof {
                    input.lemma_leads_to_trans(cur, next);
                    let before = rows_view(rows@);
                    let more = spec_rows(next);
                    assert(before + (seq![r@] + more.0) =~= before.push(r@) + more.0);
                }
                let ghost before = rows@;
                let ghost rv = r@;
                rows.push(r);
                proof {
                    assert(rows_view(rows@) =~= rows_view(before).push(rv));
                }
                cur = next;
            },
            None => {
                done = true;
            },
        }
    }
    proof {
        assert(rows_view(rows@) + Seq::<RowView>::empty() =~= rows_view(rows@));
        assert(tail(input@, 0) =~= input@);
    }
    if rows.len() > 0 {
        let centered = input.spaces_at(0) > 0;
        Ok((cur, Table::new(rows, centered)))
    } else {
        Err(LangParserError::from_ctx(&input, "Not a table"))
    }
}

/// Parses a table: lines that begin and end with `|` and hold cells that
/// `|` parts. A line whose cells hold `-` and `+` only parts the header of
/// the table from its body.
pub fn table<'a>(input: Span<'a>) -> (r: IResult<'a, Located<Table<'static>>>)
    requires
        input.wf(),
    ensures
        parse_agrees(r, input, spec_located(input, spec_table(input))),
{
    context("Table", le(&input, table_bare(input)))
}

} // verus!
