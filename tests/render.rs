use fancy_table::charset::Charset;
use fancy_table::{FancyTable, FancyTableBuilder, FancyTableOpts, Layout, Separator, TableError, TitleAlign};

fn simple_opts() -> FancyTableOpts {
    FancyTableOpts {
        title_align: TitleAlign::LeftOffset(4),
        charset: Charset::Simple,
        headers_separator: Some(Separator::Double),
        rows_separator: Some(Separator::Single),
        max_lines: 3,
    }
}

fn small_builder() -> FancyTableBuilder {
    FancyTable::create(simple_opts())
        .add_column_named("ID", Layout::Slim)
        .add_wrapping_column_named("NAME", Layout::Expandable(10))
}

fn rows(data: &[&[&str]]) -> Vec<Vec<String>> {
    data.iter()
        .map(|r| r.iter().map(|c| c.to_string()).collect())
        .collect()
}

#[test]
fn render_small_table() {
    let table = small_builder().build(20);
    assert_eq!(table.column_width(0), Some(4));
    assert_eq!(table.column_width(1), Some(10));
    assert_eq!(table.column_width(2), None);
    let lines = table
        .render(&rows(&[&["1", "Ala ma kota"], &["22", "x"]]))
        .unwrap();
    assert_eq!(
        lines,
        vec![
            "+----+-------------+",
            "| ID | NAME     |",
            "|==================|",
            "| 1  | Ala ma   |",
            "|    | kota     |",
            "|----+-------------|",
            "| 22 | x        |",
            "+----+-------------+",
        ]
    );
}

#[test]
fn render_title_in_top_border() {
    let table = small_builder().add_title("T").build(20);
    let lines = table.render(&rows(&[])).unwrap();
    assert_eq!(lines[0], "+----* T *---------+");
    assert_eq!(lines.len(), 4);
}

#[test]
fn render_title_from_right() {
    let table = small_builder()
        .add_title_with_align("T", TitleAlign::RightOffset(2))
        .build(20);
    let lines = table.render(&rows(&[])).unwrap();
    assert_eq!(lines[0], "+----+------* T *--+");
}

#[test]
fn render_title_too_long_is_omitted() {
    let table = small_builder().add_title("a long title").build(20);
    let lines = table.render(&rows(&[])).unwrap();
    assert_eq!(lines[0], "+----+-------------+");
}

#[test]
fn render_without_separators() {
    let table = small_builder().hseparator(None).rseparator(None).build(20);
    let lines = table.render(&rows(&[&["1", "a"], &["2", "b"]])).unwrap();
    assert_eq!(
        lines,
        vec![
            "+----+-------------+",
            "| ID | NAME     |",
            "| 1  | a        |",
            "| 2  | b        |",
            "+----+-------------+",
        ]
    );
}

#[test]
fn render_custom_separator() {
    let table = small_builder().rseparator(Some(Separator::Custom('~'))).build(20);
    let lines = table.render(&rows(&[&["1", "a"], &["2", "b"]])).unwrap();
    assert_eq!(lines[4], "|~~~~+~~~~~~~~~~~~~|");
}

#[test]
fn render_row_too_long() {
    let table = small_builder().build(20);
    let r = table.render(&rows(&[&["1", "a", "extra"]]));
    assert_eq!(r, Err(TableError::RowLengthMismatch));
}

#[test]
fn render_short_row_leaves_cells_out() {
    let table = small_builder().padding(0).build(12);
    let lines = table.render(&rows(&[&["7"]])).unwrap();
    assert_eq!(lines[3], "|7 |");
}

#[test]
fn min_table_width_of_builder() {
    assert_eq!(small_builder().min_table_width(), Some(13));
    let b = FancyTable::create(simple_opts()).add_column_named("X", Layout::Slim).padding(usize::MAX);
    assert_eq!(b.min_table_width(), None);
}

#[test]
fn glyph_sets_differ() {
    assert_eq!(Charset::Modern.get_chars().se, '╭');
    assert_eq!(Charset::Classic.get_chars().se, '┌');
    assert_eq!(Charset::Simple.get_chars().dew, '=');
    assert_eq!(Charset::Minimal.get_chars().ns, ' ');
}

#[test]
fn default_opts() {
    let o = FancyTableOpts::default();
    assert_eq!(o.max_lines, 3);
    assert_eq!(o.charset, Charset::Modern);
    assert_eq!(o.headers_separator, Some(Separator::Double));
    assert_eq!(o.rows_separator, Some(Separator::Single));
    assert_eq!(o.title_align, TitleAlign::LeftOffset(4));
}
