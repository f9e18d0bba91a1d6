use lib::table::{
    Table, TableCell, TableCellVerticalAlignment, TableChild, TableError, TableRow,
    TableRowMatcher, TextBaseline,
};

fn row(widgets: &[u64]) -> TableRow {
    TableRow::new(widgets.iter().map(|id| TableChild::new(*id)).collect())
}

#[test]
fn baseline_alignment_has_to_say_which_baseline() {
    assert_eq!(
        Table::with_alignment(vec![row(&[1])], TableCellVerticalAlignment::Baseline, None),
        Err(TableError::BaselineAlignmentWithoutBaseline)
    );
    assert!(Table::with_alignment(
        vec![row(&[1])],
        TableCellVerticalAlignment::Baseline,
        Some(TextBaseline::Alphabetic)
    )
    .is_ok());
    assert!(
        Table::with_alignment(vec![row(&[1])], TableCellVerticalAlignment::Top, None).is_ok(),
        "and every other alignment needs no baseline"
    );
}

#[test]
fn two_rows_cannot_share_a_key() {
    assert_eq!(
        Table::new(vec![row(&[1]).with_key(7), row(&[2]).with_key(7)]),
        Err(TableError::DuplicateRowKey(7))
    );
    assert!(Table::new(vec![row(&[1]).with_key(7), row(&[2])]).is_ok());
}

#[test]
fn a_table_with_ragged_rows_would_contain_holes() {
    assert_eq!(
        Table::new(vec![row(&[1, 2]), row(&[3])]),
        Err(TableError::IrregularRowLengths)
    );
    assert!(Table::new(vec![row(&[1, 2]), row(&[3, 4])]).is_ok());
}

#[test]
fn a_row_with_no_cells_is_an_empty_row_and_is_refused() {
    assert_eq!(
        Table::new(vec![row(&[1]), TableRow::new(Vec::new())]),
        Err(TableError::IrregularRowLengths),
        "caught by the width check first when the widths differ"
    );
    assert_eq!(
        Table::new(vec![TableRow::new(Vec::new()), TableRow::new(Vec::new())]),
        Err(TableError::EmptyRow),
        "and by the empty check when they all agree"
    );
}

#[test]
fn a_table_with_no_rows_at_all_is_fine() {
    assert!(Table::new(Vec::new()).is_ok());
    assert_eq!(Table::new(Vec::new()).unwrap().column_count(), 0);
}

#[test]
fn cell_keys_must_be_unique_across_the_whole_table_not_just_a_row() {
    let clashing = vec![
        TableRow::new(vec![TableChild::keyed(1, 7)]),
        TableRow::new(vec![TableChild::keyed(2, 7)]),
    ];
    assert_eq!(Table::new(clashing), Err(TableError::DuplicateCellKey(7)));

    let distinct = vec![
        TableRow::new(vec![TableChild::keyed(1, 7)]),
        TableRow::new(vec![TableChild::keyed(2, 8)]),
    ];
    assert!(Table::new(distinct).is_ok());
}

#[test]
fn a_table_with_no_decorated_rows_keeps_no_decoration_list_at_all() {
    let plain = Table::new(vec![row(&[1]), row(&[2])]).unwrap();
    assert_eq!(plain.row_decorations(), None);

    let decorated = Table::new(vec![row(&[1]).with_decoration(99), row(&[2])]).unwrap();
    assert_eq!(decorated.row_decorations(), Some([Some(99), None].as_slice()));
}

#[test]
fn the_cells_come_out_in_row_major_order() {
    let table = Table::new(vec![row(&[1, 2]), row(&[3, 4])]).unwrap();
    assert_eq!(table.flat_children(), vec![1, 2, 3, 4]);
    assert_eq!(table.column_count(), 2);
}

#[test]
fn a_row_describes_what_is_there_and_says_so_when_nothing_is() {
    assert_eq!(TableRow::new(Vec::new()).describe(), "TableRow(no children)");
    assert_eq!(row(&[1, 2]).describe(), "TableRow([1, 2])");
    assert_eq!(
        row(&[1]).with_key(7).with_decoration(9).describe(),
        "TableRow([7], 9, [1])"
    );
}

#[test]
fn a_cell_without_an_alignment_takes_the_tables_default() {
    let inherits = TableCell::new(None);
    assert_eq!(
        inherits.resolve(TableCellVerticalAlignment::Middle),
        TableCellVerticalAlignment::Middle
    );

    let overrides = TableCell::new(Some(TableCellVerticalAlignment::Bottom));
    assert_eq!(
        overrides.resolve(TableCellVerticalAlignment::Middle),
        TableCellVerticalAlignment::Bottom
    );
}

#[test]
fn setting_the_same_alignment_again_does_not_ask_for_a_layout() {
    let cell = TableCell::new(Some(TableCellVerticalAlignment::Bottom));
    let mut current = None;
    assert!(cell.apply_parent_data(&mut current));
    assert!(!cell.apply_parent_data(&mut current), "nothing changed");
}

#[test]
fn an_unkeyed_row_is_matched_positionally() {
    let mut matcher = TableRowMatcher::new();
    matcher.update(&Table::new(vec![row(&[1]), row(&[2])]).unwrap());
    let first = matcher.rows()[0].children[0];
    let second = matcher.rows()[1].children[0];

    matcher.update(&Table::new(vec![row(&[10]), row(&[20])]).unwrap());
    assert_eq!(matcher.rows()[0].children[0], first);
    assert_eq!(matcher.rows()[1].children[0], second);
}

#[test]
fn a_keyed_row_is_found_wherever_it_moved_to() {
    let mut matcher = TableRowMatcher::new();
    matcher.update(&Table::new(vec![row(&[1]).with_key(7), row(&[2]).with_key(8)]).unwrap());
    let seven = matcher.rows()[0].children[0];
    let eight = matcher.rows()[1].children[0];

    matcher.update(&Table::new(vec![row(&[2]).with_key(8), row(&[1]).with_key(7)]).unwrap());
    assert_eq!(matcher.rows()[0].children[0], eight, "8 came up");
    assert_eq!(matcher.rows()[1].children[0], seven, "and 7 went down");
    assert!(matcher.deactivated().is_empty(), "neither was rebuilt");
}

#[test]
fn inserting_a_keyed_row_does_not_shift_every_unkeyed_rows_identity() {
    let mut matcher = TableRowMatcher::new();
    matcher.update(&Table::new(vec![row(&[1]), row(&[2])]).unwrap());
    let first = matcher.rows()[0].children[0];
    let second = matcher.rows()[1].children[0];

    matcher.update(&Table::new(vec![row(&[9]).with_key(7), row(&[1]), row(&[2])]).unwrap());
    assert_eq!(
        matcher.rows()[1].children[0],
        first,
        "the first unkeyed row is still the first unkeyed element"
    );
    assert_eq!(matcher.rows()[2].children[0], second);
}

#[test]
fn a_row_that_went_away_takes_its_cells_with_it() {
    let mut matcher = TableRowMatcher::new();
    matcher.update(&Table::new(vec![row(&[1]), row(&[2])]).unwrap());
    let second = matcher.rows()[1].children[0];

    matcher.update(&Table::new(vec![row(&[1])]).unwrap());
    assert_eq!(matcher.rows().len(), 1);
    assert!(matcher.deactivated().contains(&second));
}

#[test]
fn a_keyed_row_nothing_claimed_is_deactivated() {
    let mut matcher = TableRowMatcher::new();
    matcher.update(&Table::new(vec![row(&[1]).with_key(7)]).unwrap());
    let seven = matcher.rows()[0].children[0];

    matcher.update(&Table::new(vec![row(&[1]).with_key(8)]).unwrap());
    assert!(matcher.deactivated().contains(&seven));
    assert_ne!(matcher.rows()[0].children[0], seven);
}

#[test]
fn a_narrowed_table_deactivates_the_cells_past_the_new_width() {
    let mut matcher = TableRowMatcher::new();
    matcher.update(&Table::new(vec![row(&[1, 2, 3])]).unwrap());
    let third = matcher.rows()[0].children[2];

    matcher.update(&Table::new(vec![row(&[1, 2])]).unwrap());
    assert_eq!(matcher.rows()[0].children.len(), 2);
    assert!(matcher.deactivated().contains(&third));
}
