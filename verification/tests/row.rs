//! Committing a feature's row.

use xeibe::feature::OnFeatureError;
use xeibe::row::{Cell, ColumnShape, RowFault, RowOutcome, RowTexts, commit_row, put_value};

fn column(name: &str, nullable: bool, list: bool, item_nullable: bool) -> ColumnShape {
    ColumnShape { name: name.to_string(), nullable, list, anchor: 0, item_nullable }
}

fn row(cells: Vec<Cell>, count: u32) -> RowTexts {
    RowTexts { cells, counts: vec![count], error: None, geometry_error: None }
}

fn cells_of(outcome: RowOutcome) -> Vec<Cell> {
    match outcome {
        RowOutcome::Row(cells) => cells,
        other => panic!("not a row: {other:?}"),
    }
}

#[test]
fn list_columns_are_padded_to_their_anchor() {
    let columns = vec![column("id", false, false, true), column("names", true, true, true), column("tags", true, true, true)];
    let cells = vec![Cell::Present("a".to_string()), Cell::List(vec![Some("x".to_string())]), Cell::Null];
    let out = cells_of(commit_row(row(cells, 3), &columns, OnFeatureError::Error));
    assert!(matches!(&out[0], Cell::Present(s) if s == "a"));
    match &out[1] {
        Cell::List(items) => assert_eq!(items, &vec![Some("x".to_string()), None, None]),
        other => panic!("{other:?}"),
    }
    match &out[2] {
        Cell::List(items) => assert_eq!(items, &vec![None, None, None]),
        other => panic!("{other:?}"),
    }
}

#[test]
fn a_list_column_whose_anchor_never_occurred_stays_null() {
    let columns = vec![column("tags", true, true, true)];
    let out = cells_of(commit_row(row(vec![Cell::Null], 0), &columns, OnFeatureError::Error));
    assert!(matches!(out[0], Cell::Null));
}

#[test]
fn a_non_null_column_without_a_value_fails_or_is_skipped() {
    let columns = vec![column("id", false, false, true)];
    match commit_row(row(vec![Cell::Null], 0), &columns, OnFeatureError::Error) {
        RowOutcome::Failed(RowFault::MissingValue(name)) => assert_eq!(name, "id"),
        other => panic!("{other:?}"),
    }
    match commit_row(row(vec![Cell::Null], 0), &columns, OnFeatureError::Skip) {
        RowOutcome::Skipped(RowFault::MissingValue(name)) => assert_eq!(name, "id"),
        other => panic!("{other:?}"),
    }
    // Padding makes a null item, which a non-null item type refuses.
    let columns = vec![column("tags", true, true, false)];
    let cells = vec![Cell::List(vec![Some("x".to_string())])];
    assert!(matches!(
        commit_row(row(cells, 2), &columns, OnFeatureError::NullGeometry),
        RowOutcome::Failed(RowFault::MissingValue(_))
    ));
}

#[test]
fn a_rows_feature_errors_follow_the_policy() {
    let columns = vec![column("id", true, false, true)];
    let with = |error: Option<&str>, geometry: Option<&str>| RowTexts {
        cells: vec![Cell::Null],
        counts: vec![0],
        error: error.map(|e| e.to_string()),
        geometry_error: geometry.map(|e| e.to_string()),
    };
    match commit_row(with(Some("bad"), None), &columns, OnFeatureError::NullGeometry) {
        RowOutcome::Failed(RowFault::Feature(m)) => assert_eq!(m, "bad"),
        other => panic!("{other:?}"),
    }
    assert!(matches!(
        commit_row(with(Some("bad"), None), &columns, OnFeatureError::Skip),
        RowOutcome::Skipped(RowFault::Feature(_))
    ));
    assert!(matches!(
        commit_row(with(None, Some("ring")), &columns, OnFeatureError::Error),
        RowOutcome::Failed(RowFault::Feature(_))
    ));
    assert!(matches!(
        commit_row(with(None, Some("ring")), &columns, OnFeatureError::Skip),
        RowOutcome::Skipped(RowFault::Feature(_))
    ));
    // The geometry stays null and the row is kept.
    assert!(matches!(commit_row(with(None, Some("ring")), &columns, OnFeatureError::NullGeometry), RowOutcome::Row(_)));
}

#[test]
fn a_value_fills_its_cell_once() {
    let id = column("id", true, false, true);
    let mut r = row(vec![Cell::Null], 0);
    put_value(&mut r, &id, 0, "a".to_string());
    assert!(matches!(&r.cells[0], Cell::Present(s) if s == "a"));
    assert!(r.error.is_none());
    put_value(&mut r, &id, 0, "b".to_string());
    assert!(matches!(&r.cells[0], Cell::Present(s) if s == "a"));
    assert_eq!(r.error.as_deref(), Some("column id: a second value, but the column holds one per feature"));
    // The first failure stays.
    r.cells[0] = Cell::Present("x".to_string());
    put_value(&mut r, &id, 0, "c".to_string());
    assert_eq!(r.error.as_deref(), Some("column id: a second value, but the column holds one per feature"));
}

#[test]
fn list_values_go_to_the_occurrence_of_their_anchor() {
    let tags = column("tags", true, true, true);
    let mut r = row(vec![Cell::Null], 1);
    put_value(&mut r, &tags, 0, "a".to_string());
    r.counts[0] = 3;
    put_value(&mut r, &tags, 0, "c".to_string());
    match &r.cells[0] {
        Cell::List(items) => assert_eq!(items, &vec![Some("a".to_string()), None, Some("c".to_string())]),
        other => panic!("{other:?}"),
    }
    assert!(r.error.is_none());
    // A second value in the third occurrence.
    put_value(&mut r, &tags, 0, "d".to_string());
    assert_eq!(r.error.as_deref(), Some("column tags: a second value within one occurrence of the list's anchor"));
    // An anchor not counted yet still takes one value.
    let mut r = row(vec![Cell::Null], 0);
    put_value(&mut r, &tags, 0, "z".to_string());
    match &r.cells[0] {
        Cell::List(items) => assert_eq!(items, &vec![Some("z".to_string())]),
        other => panic!("{other:?}"),
    }
}
