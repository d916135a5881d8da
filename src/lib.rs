//! Fixed-width table rendering: column width resolution, text reflow into
//! padded lines, and assembly of bordered table lines.

pub mod charset;
mod fancy;
pub mod padstr;
pub mod resolve;

use charset::{Charset, TableChars};
use vstd::prelude::*;

verus! {

/// How a column's width is decided.
#[derive(Clone, Copy, Debug, PartialEq, Eq, Structural)]
pub enum Layout {
    /// As wide as its header and padding.
    Slim,
    /// Exactly this wide.
    Fixed(usize),
    /// At least as wide as its header and padding; grows up to this width to
    /// take spare table width.
    Expandable(usize),
}

/// What happens to cell text wider than its column.
#[derive(Clone, Copy, Debug, PartialEq, Eq, Structural)]
pub enum Overflow {
    /// Broken between words over several lines.
    Wrap,
    /// Each line clipped to the column.
    Truncate,
}

#[derive(Clone, Copy, Debug, PartialEq, Eq, Structural)]
pub enum Align {
    Center,
    Left,
    Right,
}

/// Where the title sits in the top border: this many characters from its
/// left or right end.
#[derive(Clone, Copy, Debug, PartialEq, Eq, Structural)]
pub enum TitleAlign {
    LeftOffset(usize),
    RightOffset(usize),
}

/// The line drawn between the header and the rows, or between rows.
#[derive(Clone, Copy, Debug, PartialEq, Eq, Structural)]
pub enum Separator {
    Single,
    Double,
    Custom(char),
}

/// Why a table could not be rendered.
#[derive(Clone, Copy, Debug, PartialEq, Eq, Structural)]
pub enum TableError {
    /// A row, or the headers, have more cells than the table has columns.
    RowLengthMismatch,
}

/// Table-wide settings that a builder starts from.
pub struct FancyTableOpts {
    pub title_align: TitleAlign,
    pub charset: Charset,
    pub headers_separator: Option<Separator>,
    pub rows_separator: Option<Separator>,
    pub max_lines: usize,
}

/// One column: its resolved width, the most lines a cell may take, and how
/// its text is aligned, sized and fitted.
#[derive(Clone, Copy, Debug, PartialEq, Eq, Structural)]
pub struct ColSpec {
    pub width: usize,
    pub max_lines: usize,
    pub align: Align,
    pub layout: Layout,
    pub overflow: Overflow,
}

/// A table whose column widths are resolved, ready to render rows.
pub struct FancyTable {
    width: usize,
    chars: TableChars,
    padding: usize,
    columns: Vec<ColSpec>,
    headers: Vec<String>,
    rows_separator: Option<Separator>,
    headers_separator: Option<Separator>,
    title: Option<TitleSpec>,
}

/// Collects the columns and settings of a table before its widths are
/// resolved.
pub struct FancyTableBuilder {
    padding: usize,
    max_lines: usize,
    rows_separator: Option<Separator>,
    headers_separator: Option<Separator>,
    charset: Charset,
    headers: Vec<String>,
    columns: Vec<ColSpec>,
    title: Option<String>,
    title_align: TitleAlign,
}

struct TitleSpec {
    title: String,
    align: TitleAlign,
}

/// The content of a builder.
pub struct BuilderView {
    pub padding: nat,
    pub max_lines: nat,
    pub rows_separator: Option<Separator>,
    pub headers_separator: Option<Separator>,
    pub charset: Charset,
    pub headers: Seq<Seq<char>>,
    pub columns: Seq<ColSpec>,
    pub title: Option<Seq<char>>,
    pub title_align: TitleAlign,
}

/// The content of a table.
pub struct TableView {
    pub width: nat,
    pub chars: TableChars,
    pub padding: nat,
    pub columns: Seq<ColSpec>,
    pub headers: Seq<Seq<char>>,
    pub rows_separator: Option<Separator>,
    pub headers_separator: Option<Separator>,
    pub title: Option<(Seq<char>, TitleAlign)>,
}

} // verus!
