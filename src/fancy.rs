//! Building a table (the builder's settings, then width resolution) and
//! rendering it into lines of text.

use crate::charset::{glyphs, Charset};
use crate::charset::TableChars;
use crate::padstr::{
    blank, packed, spaces, str_views, text_lines, truncate_chunks, wrap_chunks, Pad, PadStr,
};
use crate::resolve::{
    lemma_sum_prefix, min_table_width, min_widths, resolve_widths, resolved_widths, sum,
    usize_views,
};
use crate::{
    Align, BuilderView, ColSpec, FancyTable, FancyTableBuilder, FancyTableOpts, Layout, Overflow,
    Separator, TableError, TableView, TitleAlign, TitleSpec,
};
use std::collections::VecDeque;
use vstd::prelude::*;

verus! {

/// The layout of each column.
pub open spec fn layouts_of(cs: Seq<ColSpec>) -> Seq<Layout> {
    Seq::new(cs.len(), |i: int| cs[i].layout)
}

/// The columns `cs` with the widths `ws`.
pub open spec fn with_widths(cs: Seq<ColSpec>, ws: Seq<nat>) -> Seq<ColSpec> {
    Seq::new(cs.len(), |i: int| ColSpec { width: ws[i] as usize, ..cs[i] })
}

/// The padding that aligns text as `a` asks.
pub open spec fn pad_of(a: Align) -> Pad {
    match a {
        Align::Left => Pad::Right,
        Align::Right => Pad::Left,
        Align::Center => Pad::Center,
    }
}

/// A column's width less `padding` on both sides, or 0 where that is more.
pub open spec fn inner_of(width: nat, padding: nat) -> nat {
    if width >= 2 * padding {
        (width - 2 * padding) as nat
    } else {
        0
    }
}

/// The width of a cell's text: the column less the padding on both sides.
pub open spec fn inner_width(t: TableView, c: ColSpec) -> nat {
    inner_of(c.width as nat, t.padding)
}

/// The lines of a cell holding `text` in column `c`.
pub open spec fn cell_lines(t: TableView, c: ColSpec, text: Seq<char>) -> Seq<Seq<char>> {
    let ls = text_lines(text);
    let chunks = match c.overflow {
        Overflow::Truncate => truncate_chunks(ls),
        Overflow::Wrap => wrap_chunks(ls),
    };
    packed(chunks, inner_width(t, c), c.max_lines as nat, pad_of(c.align))
}

/// The lines of each cell of a row; cell `i` is in column `i`.
pub open spec fn row_cells(t: TableView, row: Seq<Seq<char>>) -> Seq<Seq<Seq<char>>> {
    Seq::new(row.len(), |i: int| cell_lines(t, t.columns[i], row[i]))
}

/// The most lines any cell has.
pub open spec fn max_height(cl: Seq<Seq<Seq<char>>>) -> nat
    decreases cl.len(),
{
    if cl.len() == 0 {
        0
    } else {
        let h = max_height(cl.drop_last());
        if cl.last().len() > h {
            cl.last().len()
        } else {
            h
        }
    }
}

/// Line `j` of cell `i`, or blank where the cell has fewer lines.
pub open spec fn cell_text(t: TableView, cl: Seq<Seq<Seq<char>>>, i: int, j: int) -> Seq<char> {
    if j < cl[i].len() {
        cl[i][j]
    } else {
        spaces(inner_width(t, t.columns[i]))
    }
}

/// Line `j` of the first `k` cells, each followed by a divider but the last.
pub open spec fn cells_joined(t: TableView, cl: Seq<Seq<Seq<char>>>, j: int, k: nat) -> Seq<char>
    decreases k,
{
    if k == 0 {
        seq![]
    } else {
        let div = if k < cl.len() {
            spaces(t.padding) + seq![t.chars.ns] + spaces(t.padding)
        } else {
            seq![]
        };
        cells_joined(t, cl, j, (k - 1) as nat) + cell_text(t, cl, k - 1, j) + div
    }
}

/// Line `j` of a row, between the outer borders.
pub open spec fn row_line(t: TableView, cl: Seq<Seq<Seq<char>>>, j: int) -> Seq<char> {
    seq![t.chars.ns] + spaces(t.padding) + cells_joined(t, cl, j, cl.len()) + spaces(t.padding)
        + seq![t.chars.ns]
}

/// The lines of a row: as many as its tallest cell has.
pub open spec fn row_block(t: TableView, row: Seq<Seq<char>>) -> Seq<Seq<char>> {
    let cl = row_cells(t, row);
    Seq::new(max_height(cl), |j: int| row_line(t, cl, j))
}

/// The width of each column.
pub open spec fn col_widths(t: TableView) -> Seq<nat> {
    Seq::new(t.columns.len(), |k: int| t.columns[k].width as nat)
}

/// Where the divider after column `i` stands.
pub open spec fn boundary(t: TableView, i: int) -> nat {
    sum(col_widths(t).take(i + 1)) + i as nat + 1
}

/// Some divider between columns `0..k` stands at `p`.
pub open spec fn junction_before(t: TableView, k: int, p: int) -> bool {
    exists|i: int| 0 <= i < k && i < t.columns.len() - 1 && boundary(t, i) == p
}

/// A horizontal line: dividers between columns, the end glyphs, and `fill`.
pub open spec fn border_line(t: TableView, fill: char, left: char, right: char, junction: char) -> Seq<
    char,
> {
    Seq::new(
        t.width,
        |p: int|
            if junction_before(t, t.columns.len() as int, p) {
                junction
            } else if p == t.width - 1 {
                right
            } else if p == 0 {
                left
            } else {
                fill
            },
    )
}

/// The fill, junction, left and right glyphs of a separator line.
pub open spec fn separator_glyphs(ch: TableChars, separator: Option<Separator>) -> (
    char,
    char,
    char,
    char,
) {
    match separator {
        Some(Separator::Single) => (ch.ew, ch.news, ch.nes, ch.nws),
        Some(Separator::Double) => (ch.dew, ch.dnews, ch.dnes, ch.dnws),
        Some(Separator::Custom(c)) => (c, ch.news, ch.nes, ch.nws),
        None => ('-', '|', '|', '|'),
    }
}

/// A separator line.
pub open spec fn separator_line(t: TableView, separator: Option<Separator>) -> Seq<char> {
    let g = separator_glyphs(t.chars, separator);
    border_line(t, g.0, g.2, g.3, g.1)
}

/// Where the decorated title starts in the top border, when it fits: the
/// title and four decoration characters must leave more than four
/// characters of border, and lie within it.
pub open spec fn title_start(t: TableView) -> Option<nat> {
    match t.title {
        None => None,
        Some((title, align)) => {
            let tw = title.len() + 4;
            if tw + 4 >= t.width {
                None
            } else {
                match align {
                    TitleAlign::LeftOffset(lo) => if lo + 1 + tw <= t.width {
                        Some((lo + 1) as nat)
                    } else {
                        None
                    },
                    TitleAlign::RightOffset(ro) => if ro + tw + 1 <= t.width {
                        Some((t.width - ro - tw - 1) as nat)
                    } else {
                        None
                    },
                }
            }
        },
    }
}

/// The top border, with the title set into it where it fits.
pub open spec fn top_line(t: TableView) -> Seq<char> {
    let b = border_line(t, t.chars.ew, t.chars.se, t.chars.sw, t.chars.ews);
    match title_start(t) {
        Some(start) => {
            let title = t.title->Some_0.0;
            let deco = seq![t.chars.title, ' '] + title + seq![' ', t.chars.title];
            b.take(start as int) + deco + b.skip((start + deco.len()) as int)
        },
        None => b,
    }
}

/// The bottom border.
pub open spec fn bottom_line(t: TableView) -> Seq<char> {
    border_line(t, t.chars.ew, t.chars.ne, t.chars.nw, t.chars.new)
}

/// The lines of the first `k` rows, with a row separator between rows where
/// there is one.
pub open spec fn rows_lines(t: TableView, rows: Seq<Seq<Seq<char>>>, k: nat) -> Seq<Seq<char>>
    decreases k,
{
    if k == 0 {
        seq![]
    } else {
        let sep = if k > 1 && t.rows_separator is Some {
            seq![separator_line(t, t.rows_separator)]
        } else {
            seq![]
        };
        rows_lines(t, rows, (k - 1) as nat) + sep + row_block(t, rows[k - 1])
    }
}

/// The whole table: top border, header row (if there are headers), header
/// separator (if there is one), the rows, bottom border.
pub open spec fn table_lines(t: TableView, rows: Seq<Seq<Seq<char>>>) -> Seq<Seq<char>> {
    let header = if t.headers.len() > 0 {
        row_block(t, t.headers)
    } else {
        seq![]
    };
    let hsep = if t.headers_separator is Some {
        seq![separator_line(t, t.headers_separator)]
    } else {
        seq![]
    };
    seq![top_line(t)] + header + hsep + rows_lines(t, rows, rows.len()) + seq![bottom_line(t)]
}

/// Every row, and the headers, have no more cells than there are columns.
pub open spec fn rows_fit(t: TableView, rows: Seq<Seq<Seq<char>>>) -> bool {
    t.headers.len() <= t.columns.len() && forall|i: int|
        0 <= i < rows.len() ==> (#[trigger] rows[i]).len() <= t.columns.len()
}

pub open spec fn rows_views(rows: Seq<Vec<String>>) -> Seq<Seq<Seq<char>>> {
    Seq::new(rows.len(), |i: int| str_views(rows[i]@))
}

/// Relies on String::push: appends one character.
#[verifier::external_body]
fn push_char(s: &mut String, c: char)
    ensures
        final(s)@ == old(s)@.push(c),
{
    s.push(c)
}

fn append_range(out: &mut String, v: &Vec<char>, from: usize, to: usize)
    requires
        from <= to <= v@.len(),
    ensures
        final(out)@ == old(out)@ + v@.subrange(from as int, to as int),
{
    let mut i: usize = from;
    while i < to
        invariant
            from <= i <= to,
            to <= v@.len(),
            out@ =~= old(out)@ + v@.subrange(from as int, i as int),
        decreases to - i,
    {
        push_char(out, v[i]);
        i = i + 1;
    }
}

fn inner_exec(width: usize, padding: usize) -> (r: usize)
    ensures
        r == inner_of(width as nat, padding as nat),
{
    if padding <= width / 2 {
        width - 2 * padding
    } else {
        0
    }
}

fn append_lines(out: &mut Vec<String>, more: Vec<String>)
    ensures
        str_views(final(out)@) == str_views(old(out)@) + str_views(more@),
{
    let mut i: usize = 0;
    while i < more.len()
        invariant
            i <= more@.len(),
            str_views(out@) =~= str_views(old(out)@) + str_views(more@).take(i as int),
        decreases more@.len() - i,
    {
        let ghost before = str_views(out@);
        out.push(String::from_str(more[i].as_str()));
        assert(str_views(out@) =~= before.push(more@[i as int]@));
        assert(str_views(more@).take(i + 1) =~= str_views(more@).take(i as int).push(
            more@[i as int]@,
        ));
        i = i + 1;
    }
    assert(str_views(more@).take(more@.len() as int) =~= str_views(more@));
}

impl Default for FancyTableOpts {
    fn default() -> (r: Self)
        ensures
            r.title_align == TitleAlign::LeftOffset(4),
            r.charset == Charset::Modern,
            r.headers_separator == Some(Separator::Double),
            r.rows_separator == Some(Separator::Single),
            r.max_lines == 3,
    {
        Self {
            title_align: TitleAlign::LeftOffset(4),
            charset: Charset::Modern,
            headers_separator: Some(Separator::Double),
            rows_separator: Some(Separator::Single),
            max_lines: 3,
        }
    }
}

impl View for FancyTableBuilder {
    type V = BuilderView;

    closed spec fn view(&self) -> BuilderView {
        BuilderView {
            padding: self.padding as nat,
            max_lines: self.max_lines as nat,
            rows_separator: self.rows_separator,
            headers_separator: self.headers_separator,
            charset: self.charset,
            headers: str_views(self.headers@),
            columns: self.columns@,
            title: match self.title {
                Some(t) => Some(t@),
                None => None,
            },
            title_align: self.title_align,
        }
    }
}

impl View for FancyTable {
    type V = TableView;

    closed spec fn view(&self) -> TableView {
        TableView {
            width: self.width as nat,
            chars: self.chars,
            padding: self.padding as nat,
            columns: self.columns@,
            headers: str_views(self.headers@),
            rows_separator: self.rows_separator,
            headers_separator: self.headers_separator,
            title: match self.title {
                Some(t) => Some((t.title@, t.align)),
                None => None,
            },
        }
    }
}

impl FancyTableBuilder {
    fn new(opts: FancyTableOpts) -> (r: Self)
        ensures
            r@ == (BuilderView {
                padding: 1,
                max_lines: opts.max_lines as nat,
                rows_separator: opts.rows_separator,
                headers_separator: opts.headers_separator,
                charset: opts.charset,
                headers: seq![],
                columns: seq![],
                title: None,
                title_align: opts.title_align,
            }),
    {
        let r = Self {
            headers: Vec::new(),
            columns: Vec::new(),
            padding: 1,
            charset: opts.charset,
            rows_separator: opts.rows_separator,
            headers_separator: opts.headers_separator,
            max_lines: opts.max_lines,
            title: None,
            title_align: opts.title_align,
        };
        assert(str_views(r.headers@) =~= seq![]);
        r
    }

    /// Adds a column with no header.
    pub fn add_column(
        self,
        width: usize,
        max_lines: usize,
        layout: Layout,
        align: Align,
        overflow: Overflow,
    ) -> (r: Self)
        ensures
            r@ == (BuilderView {
                columns: self@.columns.push(
                    ColSpec { width, max_lines, align, layout, overflow },
                ),
                ..self@
            }),
    {
        let mut b = self;
        b.columns.push(ColSpec { width, layout, align, overflow, max_lines });
        b
    }

    /// Adds a left-aligned, truncating column with a header.
    pub fn add_column_named(self, header: &str, layout: Layout) -> (r: Self)
        ensures
            r@ == (BuilderView {
                headers: self@.headers.push(header@),
                columns: self@.columns.push(
                    ColSpec {
                        width: header@.len() as usize,
                        max_lines: self@.max_lines as usize,
                        align: Align::Left,
                        layout,
                        overflow: Overflow::Truncate,
                    },
                ),
                ..self@
            }),
    {
        self.add_column_named_with_align(header, layout, Align::Left)
    }

    /// Adds a left-aligned, wrapping column with a header.
    pub fn add_wrapping_column_named(self, header: &str, layout: Layout) -> (r: Self)
        ensures
            r@ == (BuilderView {
                headers: self@.headers.push(header@),
                columns: self@.columns.push(
                    ColSpec {
                        width: header@.len() as usize,
                        max_lines: self@.max_lines as usize,
                        align: Align::Left,
                        layout,
                        overflow: Overflow::Wrap,
                    },
                ),
                ..self@
            }),
    {
        self.add_wrapping_column_named_with_align(header, layout, Align::Left)
    }

    /// Adds a truncating column with a header and an alignment.
    pub fn add_column_named_with_align(self, header: &str, layout: Layout, align: Align) -> (r:
        Self)
        ensures
            r@ == (BuilderView {
                headers: self@.headers.push(header@),
                columns: self@.columns.push(
                    ColSpec {
                        width: header@.len() as usize,
                        max_lines: self@.max_lines as usize,
                        align,
                        layout,
                        overflow: Overflow::Truncate,
                    },
                ),
                ..self@
            }),
    {
        let mut b = self;
        let len = header.unicode_len();
        let max_lines = b.max_lines;
        let ghost old_headers = str_views(b.headers@);
        b.headers.push(String::from_str(header));
        assert(str_views(b.headers@) =~= old_headers.push(header@));
        b.add_column(len, max_lines, layout, align, Overflow::Truncate)
    }

    /// Adds a wrapping column with a header and an alignment.
    pub fn add_wrapping_column_named_with_align(
        self,
        header: &str,
        layout: Layout,
        align: Align,
    ) -> (r: Self)
        ensures
            r@ == (BuilderView {
                headers: self@.headers.push(header@),
                columns: self@.columns.push(
                    ColSpec {
                        width: header@.len() as usize,
                        max_lines: self@.max_lines as usize,
                        align,
                        layout,
                        overflow: Overflow::Wrap,
                    },
                ),
                ..self@
            }),
    {
        let mut b = self;
        let len = header.unicode_len();
        let max_lines = b.max_lines;
        let ghost old_headers = str_views(b.headers@);
        b.headers.push(String::from_str(header));
        assert(str_views(b.headers@) =~= old_headers.push(header@));
        b.add_column(len, max_lines, layout, align, Overflow::Wrap)
    }

    /// Sets the title, drawn in the top border.
    pub fn add_title(self, title: &str) -> (r: Self)
        ensures
            r@ == (BuilderView { title: Some(title@), ..self@ }),
    {
        let mut b = self;
        b.title = Some(String::from_str(title));
        b
    }

    /// Sets the title and where it sits.
    pub fn add_title_with_align(self, title: &str, align: TitleAlign) -> (r: Self)
        ensures
            r@ == (BuilderView { title: Some(title@), title_align: align, ..self@ }),
    {
        let mut b = self;
        b.title_align = align;
        b.add_title(title)
    }

    /// Sets the spaces on each side of a cell's text.
    pub fn padding(self, padding: usize) -> (r: Self)
        ensures
            r@ == (BuilderView { padding: padding as nat, ..self@ }),
    {
        let mut b = self;
        b.padding = padding;
        b
    }

    /// Sets the line under the header.
    pub fn hseparator(self, separator: Option<Separator>) -> (r: Self)
        ensures
            r@ == (BuilderView { headers_separator: separator, ..self@ }),
    {
        let mut b = self;
        b.headers_separator = separator;
        b
    }

    /// Sets the line between rows.
    pub fn rseparator(self, separator: Option<Separator>) -> (r: Self)
        ensures
            r@ == (BuilderView { rows_separator: separator, ..self@ }),
    {
        let mut b = self;
        b.rows_separator = separator;
        b
    }

    /// The narrowest table these columns make, or `None` where that is more
    /// than a `usize` holds.
    pub fn min_table_width(&self) -> (r: Option<usize>)
        ensures
            match r {
                Some(w) => w == min_table_width(
                    layouts_of(self@.columns),
                    self@.headers,
                    self@.padding,
                ),
                None => min_table_width(layouts_of(self@.columns), self@.headers, self@.padding)
                    > usize::MAX,
            },
    {
        let ghost mins = min_widths(layouts_of(self@.columns), self@.headers, self@.padding);
        let n = self.columns.len();
        let mut total: usize = 0;
        let mut i: usize = 0;
        assert(mins.take(0) =~= Seq::<nat>::empty());
        while i < n
            invariant
                n == self@.columns.len(),
                mins == min_widths(layouts_of(self@.columns), self@.headers, self@.padding),
                i <= n,
                total == sum(mins.take(i as int)),
            decreases n - i,
        {
            proof {
                lemma_sum_prefix(mins, i as int);
            }
            let w: usize = match self.columns[i].layout {
                Layout::Fixed(w) => w,
                _ => {
                    if i < self.headers.len() {
                        let hlen = self.headers[i].as_str().unicode_len();
                        if self.padding > (usize::MAX - hlen) / 2 {
                            assert(mins[i as int] > usize::MAX);
                            return None;
                        }
                        hlen + 2 * self.padding
                    } else {
                        0
                    }
                },
            };
            assert(w == mins[i as int]);
            if w > usize::MAX - total {
                return None;
            }
            total = total + w;
            i = i + 1;
        }
        assert(mins.take(n as int) =~= mins);
        if n >= usize::MAX - total {
            return None;
        }
        Some(total + n + 1)
    }

    /// Makes a table `table_width` characters wide, with the column widths
    /// resolved for that width.
    pub fn build(self, table_width: usize) -> (r: FancyTable)
        requires
            min_table_width(layouts_of(self@.columns), self@.headers, self@.padding) <= usize::MAX,
        ensures
            r@ == (TableView {
                width: table_width as nat,
                chars: glyphs(self@.charset),
                padding: self@.padding,
                columns: with_widths(
                    self@.columns,
                    resolved_widths(
                        layouts_of(self@.columns),
                        self@.headers,
                        self@.padding,
                        table_width as nat,
                    ),
                ),
                headers: self@.headers,
                rows_separator: self@.rows_separator,
                headers_separator: self@.headers_separator,
                title: match self@.title {
                    Some(t) => Some((t, self@.title_align)),
                    None => None,
                },
            }),
    {
        let title = match self.title {
            Some(t) => Some(TitleSpec { title: t, align: self.title_align }),
            None => None,
        };
        let mut table = FancyTable {
            width: table_width,
            chars: self.charset.get_chars(),
            rows_separator: self.rows_separator,
            headers_separator: self.headers_separator,
            padding: self.padding,
            headers: self.headers,
            columns: self.columns,
            title,
        };
        table.recalculate(table_width);
        table
    }
}

impl FancyTable {
    /// A builder that starts from `opts`, with padding 1 and no columns.
    pub fn create(opts: FancyTableOpts) -> (r: FancyTableBuilder)
        ensures
            r@ == (BuilderView {
                padding: 1,
                max_lines: opts.max_lines as nat,
                rows_separator: opts.rows_separator,
                headers_separator: opts.headers_separator,
                charset: opts.charset,
                headers: seq![],
                columns: seq![],
                title: None,
                title_align: opts.title_align,
            }),
    {
        FancyTableBuilder::new(opts)
    }

    /// The resolved width of column `i`, if there is one.
    pub fn column_width(&self, i: usize) -> (r: Option<usize>)
        ensures
            r == if i < self@.columns.len() {
                Some(self@.columns[i as int].width)
            } else {
                None
            },
    {
        if i < self.columns.len() {
            Some(self.columns[i].width)
        } else {
            None
        }
    }

    fn recalculate(&mut self, table_width: usize)
        requires
            min_table_width(layouts_of(old(self)@.columns), old(self)@.headers, old(self)@.padding)
                <= usize::MAX,
        ensures
            final(self)@ == (TableView {
                columns: with_widths(
                    old(self)@.columns,
                    resolved_widths(
                        layouts_of(old(self)@.columns),
                        old(self)@.headers,
                        old(self)@.padding,
                        table_width as nat,
                    ),
                ),
                ..old(self)@
            }),
    {
        let n = self.columns.len();
        let mut layouts: Vec<Layout> = Vec::new();
        let mut i: usize = 0;
        while i < n
            invariant
                n == self.columns@.len(),
                i <= n,
                layouts@ =~= layouts_of(self.columns@).take(i as int),
            decreases n - i,
        {
            layouts.push(self.columns[i].layout);
            i = i + 1;
        }
        assert(layouts@ =~= layouts_of(self.columns@));
        let widths = resolve_widths(&layouts, &self.headers, self.padding, table_width);
        let ghost ws = resolved_widths(
            layouts@,
            str_views(self.headers@),
            self.padding as nat,
            table_width as nat,
        );
        let ghost old_cols = self.columns@;
        let ghost pre = self@;
        proof {
            crate::resolve::fixed_and_slim_keep_min_width(
                layouts@,
                str_views(self.headers@),
                self.padding as nat,
                table_width as nat,
            );
        }
        i = 0;
        while i < n
            invariant
                n == self.columns@.len(),
                n == old_cols.len(),
                n == widths@.len(),
                usize_views(widths@) == ws,
                i <= n,
                self@ == (TableView { columns: self@.columns, ..pre }),
                forall|j: int|
                    0 <= j < n ==> (#[trigger] self.columns@[j]) == if j < i {
                        ColSpec { width: ws[j] as usize, ..old_cols[j] }
                    } else {
                        old_cols[j]
                    },
            decreases n - i,
        {
            let mut c = self.columns[i];
            c.width = widths[i];
            self.columns[i] = c;
            i = i + 1;
        }
        assert(self.columns@ =~= with_widths(old_cols, ws));
    }
}

impl FancyTable {
    fn separator_chars(&self, separator: &Option<Separator>) -> (r: (char, char, char, char))
        ensures
            r == separator_glyphs(self@.chars, *separator),
    {
        let ch = &self.chars;
        match separator {
            Some(Separator::Single) => (ch.ew, ch.news, ch.nes, ch.nws),
            Some(Separator::Double) => (ch.dew, ch.dnews, ch.dnes, ch.dnws),
            Some(Separator::Custom(c)) => (*c, ch.news, ch.nes, ch.nws),
            None => ('-', '|', '|', '|'),
        }
    }

    fn generate_empty_string(&self, col_idx: usize, padding: usize) -> (r: String)
        ensures
            col_idx < self@.columns.len() ==> r@ == spaces(
                inner_of(self@.columns[col_idx as int].width as nat, padding as nat),
            ),
            col_idx >= self@.columns.len() ==> r@ == Seq::<char>::empty(),
    {
        if col_idx < self.columns.len() {
            let width = inner_exec(self.columns[col_idx].width, padding);
            return blank(width);
        }
        String::new()
    }

    fn border(&self, fill: char, left: char, right: char, junction: char) -> (r: Vec<char>)
        ensures
            r@ == border_line(self@, fill, left, right, junction),
    {
        let ghost t = self@;
        let ghost ws = col_widths(t);
        let width = self.width;
        let n = self.columns.len();
        let mut line: Vec<char> = Vec::new();
        let mut p: usize = 0;
        while p < width
            invariant
                p <= width,
                line@.len() == p,
                forall|q: int|
                    0 <= q < p ==> line@[q] == if q == width - 1 {
                        right
                    } else if q == 0 {
                        left
                    } else {
                        fill
                    },
            decreases width - p,
        {
            let c = if p == width - 1 {
                right
            } else if p == 0 {
                left
            } else {
                fill
            };
            line.push(c);
            p = p + 1;
        }
        let mut acc: usize = 1;
        let mut i: usize = 0;
        assert(ws.take(0) =~= Seq::<nat>::empty());
        while i < n && i + 1 < n
            invariant
                t == self@,
                ws == col_widths(t),
                n == t.columns.len(),
                width == t.width,
                i <= n,
                line@.len() == width,
                forall|q: int|
                    0 <= q < width ==> line@[q] == if junction_before(t, i as int, q) {
                        junction
                    } else if q == width - 1 {
                        right
                    } else if q == 0 {
                        left
                    } else {
                        fill
                    },
                if acc < width {
                    acc == sum(ws.take(i as int)) + i + 1
                } else {
                    sum(ws.take(i as int)) + i + 1 >= width
                },
            decreases n - i,
        {
            let w = self.columns[i].width;
            proof {
                crate::resolve::lemma_sum_prefix(ws, i as int);
            }
            let ghost b = boundary(t, i as int);
            assert(b == sum(ws.take(i as int)) + ws[i as int] + i + 1);
            let ghost old_line = line@;
            if acc < width && w < width - acc {
                acc = acc + w + 1;
                line.set(acc - 1, junction);
                assert(acc - 1 == b);
            } else {
                acc = width;
            }
            assert forall|q: int| 0 <= q < width implies junction_before(t, i + 1, q) == (
            junction_before(t, i as int, q) || b == q) by {
                if junction_before(t, i + 1, q) {
                    let k = choose|k: int|
                        0 <= k < i + 1 && k < t.columns.len() - 1 && boundary(t, k) == q;
                    if k < i {
                        assert(junction_before(t, i as int, q));
                    }
                }
                if b == q {
                    assert(0 <= i < i + 1 && i < t.columns.len() - 1 && boundary(t, i as int) == q);
                }
                if junction_before(t, i as int, q) {
                    let k = choose|k: int|
                        0 <= k < i && k < t.columns.len() - 1 && boundary(t, k) == q;
                    assert(0 <= k < i + 1 && k < t.columns.len() - 1 && boundary(t, k) == q);
                }
            }
            i = i + 1;
        }
        assert forall|q: int| 0 <= q < width implies junction_before(t, i as int, q)
            == junction_before(t, n as int, q) by {
            if junction_before(t, n as int, q) {
                let k = choose|k: int|
                    0 <= k < n && k < t.columns.len() - 1 && boundary(t, k) == q;
                assert(0 <= k < i && k < t.columns.len() - 1 && boundary(t, k) == q);
            }
            if junction_before(t, i as int, q) {
                let k = choose|k: int|
                    0 <= k < i && k < t.columns.len() - 1 && boundary(t, k) == q;
                assert(0 <= k < n && k < t.columns.len() - 1 && boundary(t, k) == q);
            }
        }
        assert(line@ =~= border_line(t, fill, left, right, junction));
        line
    }

    fn render_row(&self, row: &Vec<String>) -> (r: Vec<String>)
        requires
            row@.len() <= self@.columns.len(),
        ensures
            str_views(r@) == row_block(self@, str_views(row@)),
    {
        let ghost t = self@;
        let ghost rv = str_views(row@);
        let ghost cl = row_cells(t, rv);
        let len = row.len();
        let mut padded: Vec<VecDeque<String>> = Vec::new();
        let mut height: usize = 0;
        let mut i: usize = 0;
        assert(cl.take(0) =~= Seq::<Seq<Seq<char>>>::empty());
        while i < len
            invariant
                t == self@,
                rv == str_views(row@),
                cl == row_cells(t, rv),
                len == row@.len(),
                len <= t.columns.len(),
                i <= len,
                padded@.len() == i,
                forall|k: int| 0 <= k < i ==> str_views((#[trigger] padded@[k])@) == cl[k],
                height == max_height(cl.take(i as int)),
            decreases len - i,
        {
            let col = self.columns[i];
            let pad = match col.align {
                Align::Left => Pad::Right,
                Align::Right => Pad::Left,
                Align::Center => Pad::Center,
            };
            let ps = match col.overflow {
                Overflow::Truncate => PadStr::truncating(row[i].as_str()),
                Overflow::Wrap => PadStr::wrapping(row[i].as_str()),
            };
            let lines = ps.paddify(inner_exec(col.width, self.padding), col.max_lines, pad);
            assert(cl.take(i + 1).drop_last() =~= cl.take(i as int));
            if lines.len() > height {
                height = lines.len();
            }
            padded.push(lines);
            i = i + 1;
        }
        assert(cl.take(len as int) =~= cl);
        let ns = self.chars.ns;
        let p = self.padding;
        let mut out: Vec<String> = Vec::new();
        let mut j: usize = 0;
        while j < height
            invariant
                t == self@,
                cl == row_cells(t, rv),
                len == cl.len(),
                len <= t.columns.len(),
                padded@.len() == len,
                forall|k: int| 0 <= k < len ==> str_views((#[trigger] padded@[k])@) == cl[k],
                height == max_height(cl),
                j <= height,
                str_views(out@) =~= Seq::new(j as nat, |jj: int| row_line(t, cl, jj)),
                ns == t.chars.ns,
                p == t.padding,
            decreases height - j,
        {
            let mut line = String::new();
            push_char(&mut line, ns);
            line.append(blank(p).as_str());
            let mut k: usize = 0;
            assert(line@ =~= seq![ns] + spaces(p as nat) + cells_joined(t, cl, j as int, 0));
            while k < len
                invariant
                    t == self@,
                    cl == row_cells(t, rv),
                    len == cl.len(),
                    len <= t.columns.len(),
                    padded@.len() == len,
                    forall|k: int| 0 <= k < len ==> str_views((#[trigger] padded@[k])@) == cl[k],
                    k <= len,
                    ns == t.chars.ns,
                    p == t.padding,
                    line@ =~= seq![ns] + spaces(p as nat) + cells_joined(t, cl, j as int, k as nat),
                decreases len - k,
            {
                let ghost before = line@;
                assert(str_views(padded@[k as int]@) == cl[k as int]);
                if j < padded[k].len() {
                    assert(padded@[k as int]@[j as int]@ == cl[k as int][j as int]);
                    line.append(padded[k][j].as_str());
                } else {
                    line.append(self.generate_empty_string(k, p).as_str());
                }
                assert(line@ =~= before + cell_text(t, cl, k as int, j as int));
                let ghost mid = line@;
                if k + 1 < len {
                    line.append(blank(p).as_str());
                    push_char(&mut line, ns);
                    line.append(blank(p).as_str());
                }
                assert(line@ =~= mid + if k + 1 < len {
                    spaces(t.padding) + seq![t.chars.ns] + spaces(t.padding)
                } else {
                    seq![]
                });
                k = k + 1;
            }
            line.append(blank(p).as_str());
            push_char(&mut line, ns);
            assert(line@ =~= row_line(t, cl, j as int));
            let ghost before_out = str_views(out@);
            out.push(line);
            assert(str_views(out@) =~= before_out.push(row_line(t, cl, j as int)));
            j = j + 1;
        }
        out
    }

    fn top_border(&self) -> (r: String)
        ensures
            r@ == top_line(self@),
    {
        let ch = &self.chars;
        let b = self.border(ch.ew, ch.se, ch.sw, ch.ews);
        let width = self.width;
        let mut top = String::new();
        match &self.title {
            Some(spec) => {
                let tlen = spec.title.as_str().unicode_len();
                if width >= 8 && tlen < width - 8 {
                    let title_width = tlen + 4;
                    let start: Option<usize> = match spec.align {
                        TitleAlign::LeftOffset(lo) => if lo < width && title_width <= width - lo
                            - 1 {
                            Some(lo + 1)
                        } else {
                            None
                        },
                        TitleAlign::RightOffset(ro) => if ro < width && title_width <= width - ro
                            - 1 {
                            Some(width - ro - title_width - 1)
                        } else {
                            None
                        },
                    };
                    assert(start is Some <==> title_start(self@) is Some);
                    assert(start is Some ==> start->Some_0 as nat == title_start(self@)->Some_0);
                    match start {
                        Some(start) => {
                            let tch = ch.title;
                            append_range(&mut top, &b, 0, start);
                            push_char(&mut top, tch);
                            push_char(&mut top, ' ');
                            top.append(spec.title.as_str());
                            push_char(&mut top, ' ');
                            push_char(&mut top, tch);
                            append_range(&mut top, &b, start + title_width, width);
                            let ghost deco = seq![tch, ' '] + spec.title@ + seq![' ', tch];
                            assert(top@ =~= b@.take(start as int) + deco + b@.skip(
                                (start + deco.len()) as int,
                            ));
                            return top;
                        },
                        None => {},
                    }
                } else {
                    assert(title_start(self@) is None);
                }
            },
            None => {},
        }
        append_range(&mut top, &b, 0, width);
        assert(b@.subrange(0, width as int) =~= b@);
        top
    }

    fn separator_line(&self, separator: &Option<Separator>) -> (r: String)
        ensures
            r@ == separator_line(self@, *separator),
    {
        let g = self.separator_chars(separator);
        let v = self.border(g.0, g.2, g.3, g.1);
        let mut r = String::new();
        append_range(&mut r, &v, 0, v.len());
        assert(v@.subrange(0, v@.len() as int) =~= v@);
        r
    }

    /// The lines of the table with `rows` under its headers: borders,
    /// header row, separators and rows. Fails where the headers or a row
    /// have more cells than the table has columns.
    pub fn render(&self, rows: &Vec<Vec<String>>) -> (r: Result<Vec<String>, TableError>)
        ensures
            match r {
                Ok(lines) => rows_fit(self@, rows_views(rows@)) && str_views(lines@) == table_lines(
                    self@,
                    rows_views(rows@),
                ),
                Err(e) => !rows_fit(self@, rows_views(rows@)) && e == TableError::RowLengthMismatch,
            },
    {
        let ghost t = self@;
        let ghost rv = rows_views(rows@);
        let cols_count = self.columns.len();
        let rows_count = rows.len();
        if self.headers.len() > cols_count {
            return Err(TableError::RowLengthMismatch);
        }
        let mut i: usize = 0;
        while i < rows_count
            invariant
                rows_count == rows@.len(),
                rv == rows_views(rows@),
                cols_count == t.columns.len(),
                t == self@,
                i <= rows_count,
                forall|k: int| 0 <= k < i ==> (#[trigger] rv[k]).len() <= cols_count,
            decreases rows_count - i,
        {
            if rows[i].len() > cols_count {
                assert(rv[i as int].len() > cols_count);
                return Err(TableError::RowLengthMismatch);
            }
            i = i + 1;
        }
        assert(rows_fit(t, rv));
        let mut out: Vec<String> = Vec::new();
        out.push(self.top_border());
        if self.headers.len() > 0 {
            let block = self.render_row(&self.headers);
            append_lines(&mut out, block);
        }
        if self.headers_separator.is_some() {
            let ghost before = str_views(out@);
            out.push(self.separator_line(&self.headers_separator));
            assert(str_views(out@) =~= before + seq![separator_line(t, t.headers_separator)]);
        }
        let ghost head = str_views(out@);
        assert(head =~= seq![top_line(t)] + (if t.headers.len() > 0 {
            row_block(t, t.headers)
        } else {
            seq![]
        }) + (if t.headers_separator is Some {
            seq![separator_line(t, t.headers_separator)]
        } else {
            seq![]
        }));
        i = 0;
        assert(head + rows_lines(t, rv, 0) =~= head);
        while i < rows_count
            invariant
                rows_count == rows@.len(),
                rv == rows_views(rows@),
                cols_count == t.columns.len(),
                t == self@,
                i <= rows_count,
                forall|k: int| 0 <= k < rows_count ==> (#[trigger] rv[k]).len() <= cols_count,
                str_views(out@) == head + rows_lines(t, rv, i as nat),
            decreases rows_count - i,
        {
            let ghost before = str_views(out@);
            if i > 0 && self.rows_separator.is_some() {
                out.push(self.separator_line(&self.rows_separator));
                assert(str_views(out@) =~= before + seq![separator_line(t, t.rows_separator)]);
            }
            assert(rv[i as int] == str_views(rows@[i as int]@));
            let block = self.render_row(&rows[i]);
            append_lines(&mut out, block);
            let ghost sep = if i + 1 > 1 && t.rows_separator is Some {
                seq![separator_line(t, t.rows_separator)]
            } else {
                seq![]
            };
            assert(str_views(out@) =~= before + sep + row_block(t, rv[i as int]));
            i = i + 1;
        }
        let ghost before = str_views(out@);
        let ch = &self.chars;
        let btm = self.border(ch.ew, ch.ne, ch.nw, ch.new);
        let mut bs = String::new();
        append_range(&mut bs, &btm, 0, btm.len());
        assert(btm@.subrange(0, btm@.len() as int) =~= btm@);
        out.push(bs);
        assert(str_views(out@) =~= before + seq![bottom_line(t)]);
        assert(rv.len() == rows_count);
        Ok(out)
    }
}

} // verus!
