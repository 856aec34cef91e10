//! What the panels of the live view are made of.
use vstd::prelude::*;

use crate::format::Tint;
use crate::layout::Size;
use crate::reading::Reading;

verus! {

/// A piece of text in one style.
pub struct Piece {
    pub text: String,
    pub tint: Tint,
    pub bold: bool,
}

/// The contents of a `Piece`.
#[verifier::ext_equal]
pub struct PieceView {
    pub text: Seq<char>,
    pub tint: Tint,
    pub bold: bool,
}

impl View for Piece {
    type V = PieceView;

    open spec fn view(&self) -> PieceView {
        PieceView { text: self.text@, tint: self.tint, bold: self.bold }
    }
}

/// A piece that is not bold.
pub open spec fn plain(text: Seq<char>, tint: Tint) -> PieceView {
    PieceView { text, tint, bold: false }
}

/// A bold piece.
pub open spec fn bold(text: Seq<char>, tint: Tint) -> PieceView {
    PieceView { text, tint, bold: true }
}

/// The contents of a list of pieces.
pub open spec fn piece_views(pieces: Seq<Piece>) -> Seq<PieceView> {
    pieces.map_values(|p: Piece| p@)
}

/// A row of a table.
pub struct TableRow {
    pub cells: Vec<Piece>,
    /// Whether it has a background of its own.
    pub striped: bool,
}

/// The contents of a `TableRow`.
#[verifier::ext_equal]
pub struct TableRowView {
    pub cells: Seq<PieceView>,
    pub striped: bool,
}

impl View for TableRow {
    type V = TableRowView;

    open spec fn view(&self) -> TableRowView {
        TableRowView { cells: piece_views(self.cells@), striped: self.striped }
    }
}

/// The contents of a list of rows.
pub open spec fn table_row_views(rows: Seq<TableRow>) -> Seq<TableRowView> {
    rows.map_values(|r: TableRow| r@)
}

/// A panel with a table.
pub struct TablePanel {
    pub title: String,
    pub header: Vec<Piece>,
    pub rows: Vec<TableRow>,
    pub widths: Vec<Size>,
    /// The cells between two columns.
    pub spacing: u16,
}

/// The contents of a `TablePanel`.
#[verifier::ext_equal]
pub struct TablePanelView {
    pub title: Seq<char>,
    pub header: Seq<PieceView>,
    pub rows: Seq<TableRowView>,
    pub widths: Seq<Size>,
    pub spacing: u16,
}

impl View for TablePanel {
    type V = TablePanelView;

    open spec fn view(&self) -> TablePanelView {
        TablePanelView {
            title: self.title@,
            header: piece_views(self.header@),
            rows: table_row_views(self.rows@),
            widths: self.widths@,
            spacing: self.spacing,
        }
    }
}

/// A panel with lines of text.
pub struct TextPanel {
    pub title: String,
    /// The colour of its border.
    pub border: Tint,
    /// The line at the left.
    pub line: Vec<Piece>,
    /// The line below it, at the right.
    pub hint: Option<Piece>,
}

/// The contents of a `TextPanel`.
#[verifier::ext_equal]
pub struct TextPanelView {
    pub title: Seq<char>,
    pub border: Tint,
    pub line: Seq<PieceView>,
    pub hint: Option<PieceView>,
}

impl View for TextPanel {
    type V = TextPanelView;

    open spec fn view(&self) -> TextPanelView {
        TextPanelView {
            title: self.title@,
            border: self.border,
            line: piece_views(self.line@),
            hint: match self.hint {
                Some(p) => Some(p@),
                None => None,
            },
        }
    }
}

/// A panel with a series of values from zero to a hundred.
pub struct SparkPanel {
    pub title: String,
    pub data: Vec<u64>,
    pub tint: Tint,
}

/// The contents of a `SparkPanel`.
#[verifier::ext_equal]
pub struct SparkPanelView {
    pub title: Seq<char>,
    pub data: Seq<u64>,
    pub tint: Tint,
}

impl View for SparkPanel {
    type V = SparkPanelView;

    open spec fn view(&self) -> SparkPanelView {
        SparkPanelView { title: self.title@, data: self.data@, tint: self.tint }
    }
}

/// A panel with a gauge.
pub struct GaugePanel {
    pub title: String,
    /// How full it is, from zero to one.
    pub ratio: Reading,
    pub tint: Tint,
    pub label: Piece,
}

/// The contents of a `GaugePanel`.
#[verifier::ext_equal]
pub struct GaugePanelView {
    pub title: Seq<char>,
    pub ratio: Reading,
    pub tint: Tint,
    pub label: PieceView,
}

impl View for GaugePanel {
    type V = GaugePanelView;

    open spec fn view(&self) -> GaugePanelView {
        GaugePanelView {
            title: self.title@,
            ratio: self.ratio,
            tint: self.tint,
            label: self.label@,
        }
    }
}

/// The header cells with the given names.
pub open spec fn header_cells(names: Seq<Seq<char>>) -> Seq<PieceView> {
    names.map_values(|name: Seq<char>| bold(name, Tint::Gray))
}

/// A piece of text in one style.
pub fn piece(text: &str, tint: Tint, is_bold: bool) -> (r: Piece)
    ensures
        r@ == (PieceView { text: text@, tint, bold: is_bold }),
{
    Piece { text: text.to_string(), tint, bold: is_bold }
}

/// The header cells with the given names.
pub fn header(names: &Vec<&str>) -> (r: Vec<Piece>)
    ensures
        piece_views(r@) == header_cells(Seq::new(names@.len(), |i: int| names@[i]@)),
{
    let mut out: Vec<Piece> = Vec::new();
    let mut i: usize = 0;
    while i < names.len()
        invariant
            i <= names.len(),
            out.len() == i,
            forall|k: int| 0 <= k < i ==> (#[trigger] out@[k])@ == bold(names@[k]@, Tint::Gray),
        decreases names.len() - i,
    {
        out.push(piece(names[i], Tint::Gray, true));
        i = i + 1;
    }
    assert(piece_views(out@) =~= header_cells(Seq::new(names@.len(), |i: int| names@[i]@)));
    out
}

} // verus!
