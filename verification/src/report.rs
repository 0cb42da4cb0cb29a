use vstd::prelude::*;

use crate::text::texts;

verus! {

/// One field of a table.
#[derive(Debug)]
pub enum Cell<N> {
    Text(String),
    Flag(bool),
    Number(N),
    Count(u128),
}

pub enum CellView<N> {
    Text(Seq<char>),
    Flag(bool),
    Number(N),
    Count(nat),
}

impl<N> View for Cell<N> {
    type V = CellView<N>;

    open spec fn view(&self) -> CellView<N> {
        match *self {
            Cell::Text(s) => CellView::Text(s@),
            Cell::Flag(b) => CellView::Flag(b),
            Cell::Number(n) => CellView::Number(n),
            Cell::Count(n) => CellView::Count(n as nat),
        }
    }
}

/// Rows of fields under headings.
#[derive(Debug)]
pub struct Table<N> {
    pub headings: Vec<String>,
    pub rows: Vec<Vec<Cell<N>>>,
}

pub struct TableView<N> {
    pub headings: Seq<Seq<char>>,
    pub rows: Seq<Seq<CellView<N>>>,
}

pub open spec fn cell_views<N>(cells: Seq<Cell<N>>) -> Seq<CellView<N>> {
    cells.map_values(|c: Cell<N>| c@)
}

pub open spec fn row_views<N>(rows: Seq<Vec<Cell<N>>>) -> Seq<Seq<CellView<N>>> {
    rows.map_values(|r: Vec<Cell<N>>| cell_views(r@))
}

impl<N> View for Table<N> {
    type V = TableView<N>;

    open spec fn view(&self) -> TableView<N> {
        TableView { headings: texts(self.headings@), rows: row_views(self.rows@) }
    }
}

/// A part of a text report: results go to standard output, diagnostics to
/// standard error.
#[derive(Debug)]
pub enum Line<N> {
    Out(String),
    Note(String),
    Table(Table<N>),
}

/// A part of a report as characters.
pub enum LineView<N> {
    Out(Seq<char>),
    Note(Seq<char>),
    Table(TableView<N>),
}

impl<N> View for Line<N> {
    type V = LineView<N>;

    open spec fn view(&self) -> LineView<N> {
        match *self {
            Line::Out(s) => LineView::Out(s@),
            Line::Note(s) => LineView::Note(s@),
            Line::Table(t) => LineView::Table(t@),
        }
    }
}

pub open spec fn line_views<N>(lines: Seq<Line<N>>) -> Seq<LineView<N>> {
    lines.map_values(|l: Line<N>| l@)
}

/// Add a part to a report.
pub fn say<N>(lines: &mut Vec<Line<N>>, line: Line<N>)
    ensures
        line_views(final(lines)@) == line_views(old(lines)@).push(line@),
{
    lines.push(line);
    assert(line_views(lines@) =~= line_views(old(lines)@).push(line@));
}

/// Add the parts of another report.
pub fn say_all<N>(lines: &mut Vec<Line<N>>, more: Vec<Line<N>>)
    ensures
        line_views(final(lines)@) == line_views(old(lines)@) + line_views(more@),
{
    let mut more = more;
    let ghost tail = more@;
    lines.append(&mut more);
    assert(line_views(lines@) =~= line_views(old(lines)@) + line_views(tail));
}

} // verus!
