use fancy_table::{FancyTable, FancyTableOpts, Layout};

#[test]
fn basic_constraints() {
    let table = FancyTable::create(FancyTableOpts::default())
        .add_column_named("ID", Layout::Fixed(8))
        .add_column_named("NAME", Layout::Fixed(4))
        .add_column_named("ROLE", Layout::Fixed(10))
        .add_column_named("PERMISSION", Layout::Expandable(30))
        .add_column_named("DESCRIPTION", Layout::Expandable(150))
        .add_title("props")
        .padding(0)
        .build(80);

    assert_eq!(table.column_width(0).unwrap(), 8);
    assert_eq!(table.column_width(1).unwrap(), 4);
    assert_eq!(table.column_width(2).unwrap(), 10);
    assert_eq!(table.column_width(3).unwrap(), 25);
    assert_eq!(table.column_width(4).unwrap(), 80 - 6 - 8 - 4 - 10 - 25);
}

#[test]
fn slim_table() {
    let table = FancyTable::create(FancyTableOpts::default())
        .add_column_named("ID", Layout::Slim)
        .add_column_named("NAME", Layout::Slim)
        .add_column_named("ROLE", Layout::Fixed(10))
        .add_column_named("PERMISSION", Layout::Expandable(30))
        .add_column_named("DESCRIPTION", Layout::Expandable(50))
        .padding(0)
        .build(0);

    assert_eq!(table.column_width(0).unwrap(), 2);
    assert_eq!(table.column_width(1).unwrap(), 4);
    assert_eq!(table.column_width(2).unwrap(), 10);
    assert_eq!(table.column_width(3).unwrap(), 10);
    assert_eq!(table.column_width(4).unwrap(), 11);
}
