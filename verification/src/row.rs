//! Committing a feature's row: the feature errors it met, list columns
//! padded to one entry per occurrence of their anchor, and the check that
//! non-null columns got a value.

use vstd::prelude::*;

use crate::feature::{FaultAction, FeatureFault, OnFeatureError, fault_action, fault_action_spec};
use crate::text::{append, opt_string_view, owned};

verus! {

/// One value of a row as read: nothing, a value, or a list column's items
/// (`None` for a null item).
#[derive(Debug)]
pub enum Cell {
    Null,
    Present(String),
    List(Vec<Option<String>>),
}

/// A cell as a value.
pub enum CellView {
    Null,
    Present(Seq<char>),
    List(Seq<Option<Seq<char>>>),
}

/// The items of a list as values.
pub open spec fn items_view(items: Seq<Option<String>>) -> Seq<Option<Seq<char>>> {
    items.map_values(|o: Option<String>| opt_string_view(o))
}

/// The view of a cell.
pub open spec fn cell_view(c: Cell) -> CellView {
    match c {
        Cell::Null => CellView::Null,
        Cell::Present(s) => CellView::Present(s@),
        Cell::List(items) => CellView::List(items_view(items@)),
    }
}

/// The view of a row of cells.
pub open spec fn cells_view(cells: Seq<Cell>) -> Seq<CellView> {
    cells.map_values(|c: Cell| cell_view(c))
}

/// How an output column takes its value.
#[derive(Debug, Clone)]
pub struct ColumnShape {
    pub name: String,
    pub nullable: bool,
    /// A list column, aligned with the occurrences of its anchor.
    pub list: bool,
    /// The anchor's counter (list columns).
    pub anchor: usize,
    /// Whether list items may be null.
    pub item_nullable: bool,
}

/// A feature's row as read, before it is committed.
#[derive(Debug)]
pub struct RowTexts {
    pub cells: Vec<Cell>,
    /// Occurrences of each anchor.
    pub counts: Vec<u32>,
    /// The first value that didn't fit its column.
    pub error: Option<String>,
    /// The first geometry error.
    pub geometry_error: Option<String>,
}

/// Why a row is not appended.
#[derive(Debug)]
pub enum RowFault {
    /// A feature error, with its message.
    Feature(String),
    /// A non-null column without a value, by name.
    MissingValue(String),
}

/// What becomes of a row.
#[derive(Debug)]
pub enum RowOutcome {
    /// Appended, list columns padded.
    Row(Vec<Cell>),
    /// Skipped, the fault recorded.
    Skipped(RowFault),
    /// The read fails with the fault.
    Failed(RowFault),
}

/// A fault as a value.
pub enum FaultView {
    Feature(Seq<char>),
    MissingValue(Seq<char>),
}

/// An outcome as a value.
pub enum OutcomeView {
    Row(Seq<CellView>),
    Skipped(FaultView),
    Failed(FaultView),
}

pub open spec fn fault_view(f: RowFault) -> FaultView {
    match f {
        RowFault::Feature(m) => FaultView::Feature(m@),
        RowFault::MissingValue(c) => FaultView::MissingValue(c@),
    }
}

pub open spec fn outcome_view(o: RowOutcome) -> OutcomeView {
    match o {
        RowOutcome::Row(cells) => OutcomeView::Row(cells_view(cells@)),
        RowOutcome::Skipped(f) => OutcomeView::Skipped(fault_view(f)),
        RowOutcome::Failed(f) => OutcomeView::Failed(fault_view(f)),
    }
}

/// `n` null items.
pub open spec fn nulls(n: int) -> Seq<Option<Seq<char>>> {
    Seq::new(n as nat, |i: int| None::<Seq<char>>)
}

/// A list column's cell padded to `count` entries: missing entries are
/// null items; a null cell of an anchor that occurred becomes a list of
/// nulls. Other columns keep their cell.
pub open spec fn padded_cell(c: CellView, column: ColumnShape, count: int) -> CellView {
    if !column.list {
        c
    } else {
        match c {
            CellView::List(items) => if count > items.len() {
                CellView::List(items + nulls(count - items.len()))
            } else {
                c
            },
            CellView::Null => if count > 0 {
                CellView::List(nulls(count))
            } else {
                c
            },
            _ => c,
        }
    }
}

/// The row with its list columns padded.
pub open spec fn padded_row(cells: Seq<CellView>, columns: Seq<ColumnShape>, counts: Seq<u32>) -> Seq<CellView> {
    Seq::new(
        cells.len(),
        |i: int|
            if i < columns.len() {
                padded_cell(cells[i], columns[i], counts[columns[i].anchor as int] as int)
            } else {
                cells[i]
            },
    )
}

/// The cell lacks a value its column needs.
pub open spec fn is_missing(c: CellView, column: ColumnShape) -> bool {
    match c {
        CellView::Null => !column.nullable,
        CellView::List(items) => !column.item_nullable && exists|k: int| 0 <= k < items.len() && items[k] is None,
        _ => false,
    }
}

/// The first column, among the first `n`, whose cell lacks a value.
pub open spec fn first_missing(cells: Seq<CellView>, columns: Seq<ColumnShape>, n: int) -> Option<int>
    decreases n,
{
    if n <= 0 {
        None
    } else {
        match first_missing(cells, columns, n - 1) {
            Some(i) => Some(i),
            None => if is_missing(cells[n - 1], columns[n - 1]) {
                Some(n - 1)
            } else {
                None
            },
        }
    }
}

/// The outcome of a fault under `policy`, if it ends the row.
pub open spec fn fault_outcome(policy: OnFeatureError, kind: FeatureFault, fault: FaultView) -> Option<OutcomeView> {
    match fault_action_spec(policy, kind) {
        FaultAction::Fail => Some(OutcomeView::Failed(fault)),
        FaultAction::Skip => Some(OutcomeView::Skipped(fault)),
        FaultAction::KeepRow => None,
    }
}

/// What committing a row gives: a value error ends it; a geometry error
/// ends it unless the policy nulls the geometry; then list columns are
/// padded, a non-null column without a value ends it, and else it is
/// appended.
pub open spec fn committed(row: RowTexts, columns: Seq<ColumnShape>, policy: OnFeatureError) -> OutcomeView {
    let padded = padded_row(cells_view(row.cells@), columns, row.counts@);
    let n = if padded.len() < columns.len() { padded.len() as int } else { columns.len() as int };
    match row.error {
        Some(m) => fault_outcome(policy, FeatureFault::Value, FaultView::Feature(m@))->0,
        None => {
            let geometry = match row.geometry_error {
                Some(m) => fault_outcome(policy, FeatureFault::Geometry, FaultView::Feature(m@)),
                None => None,
            };
            match geometry {
                Some(o) => o,
                None => match first_missing(padded, columns, n) {
                    Some(i) => fault_outcome(policy, FeatureFault::Missing, FaultView::MissingValue(columns[i].name@))->0,
                    None => OutcomeView::Row(padded),
                },
            }
        },
    }
}

/// The anchors of the list columns that have a cell are counted.
pub open spec fn anchors_counted(cells: Seq<Cell>, columns: Seq<ColumnShape>, counts: Seq<u32>) -> bool {
    forall|i: int| 0 <= i < cells.len() && i < columns.len() && (#[trigger] columns[i]).list ==> columns[i].anchor
        < counts.len()
}

proof fn lemma_items_push(s: Seq<Option<String>>, x: Option<String>)
    ensures
        items_view(s.push(x)) == items_view(s).push(opt_string_view(x)),
{
    assert(items_view(s.push(x)) =~= items_view(s).push(opt_string_view(x)));
}

proof fn lemma_cells_push(s: Seq<Cell>, x: Cell)
    ensures
        cells_view(s.push(x)) == cells_view(s).push(cell_view(x)),
{
    assert(cells_view(s.push(x)) =~= cells_view(s).push(cell_view(x)));
}

/// A missing cell found among the first `k` columns stays the first one.
proof fn lemma_first_missing_stays(cells: Seq<CellView>, columns: Seq<ColumnShape>, k: int, n: int)
    requires
        0 <= k < n,
        first_missing(cells, columns, k) is None,
        is_missing(cells[k], columns[k]),
    ensures
        first_missing(cells, columns, n) == Some(k),
    decreases n,
{
    if n > k + 1 {
        lemma_first_missing_stays(cells, columns, k, n - 1);
    }
}

fn copy_items(items: &Vec<Option<String>>) -> (r: Vec<Option<String>>)
    ensures
        items_view(r@) == items_view(items@),
{
    let mut out: Vec<Option<String>> = Vec::new();
    let mut i: usize = 0;
    while i < items.len()
        invariant
            i <= items@.len(),
            items_view(out@) == items_view(items@).take(i as int),
        decreases items.len() - i,
    {
        let item = match &items[i] {
            Some(s) => Some(owned(s.as_str())),
            None => None,
        };
        proof {
            lemma_items_push(out@, item);
        }
        out.push(item);
        assert(items_view(out@) =~= items_view(items@).take(i + 1));
        i = i + 1;
    }
    assert(items_view(items@).take(i as int) =~= items_view(items@));
    out
}

/// `items` with null items added up to `count`.
fn pad_items(items: &Vec<Option<String>>, count: usize) -> (r: Vec<Option<String>>)
    ensures
        items_view(r@) == if count > items@.len() {
            items_view(items@) + nulls(count - items@.len())
        } else {
            items_view(items@)
        },
{
    let mut out = copy_items(items);
    let ghost start = items_view(out@);
    assert(start + nulls(0) =~= start);
    while out.len() < count
        invariant
            items_view(out@) == start + nulls(out@.len() - items@.len()),
            out@.len() >= items@.len(),
            out@.len() > items@.len() ==> out@.len() <= count,
            start == items_view(items@),
        decreases count - out.len(),
    {
        proof {
            lemma_items_push(out@, None);
        }
        out.push(None);
        assert(items_view(out@) =~= start + nulls(out@.len() - items@.len()));
    }
    proof {
        if count <= items@.len() {
            assert(out@.len() == items@.len());
            assert(items_view(out@) =~= items_view(items@));
        }
    }
    out
}

/// The cell padded for its column.
fn pad_cell(c: &Cell, column: &ColumnShape, count: usize) -> (r: Cell)
    ensures
        cell_view(r) == padded_cell(cell_view(*c), *column, count as int),
{
    match c {
        Cell::Null => {
            if column.list && count > 0 {
                let items = pad_items(&Vec::new(), count);
                assert(items_view(Seq::<Option<String>>::empty()) =~= Seq::<Option<Seq<char>>>::empty());
                assert(items_view(items@) =~= nulls(count as int));
                Cell::List(items)
            } else {
                Cell::Null
            }
        },
        Cell::Present(s) => Cell::Present(owned(s.as_str())),
        Cell::List(items) => {
            if column.list {
                Cell::List(pad_items(items, count))
            } else {
                Cell::List(copy_items(items))
            }
        },
    }
}

/// The message of a second value for a column that holds one per feature.
pub open spec fn second_value_message(name: Seq<char>) -> Seq<char> {
    "column "@ + name + ": a second value, but the column holds one per feature"@
}

/// The message of a second value within one occurrence of a list's anchor.
pub open spec fn second_item_message(name: Seq<char>) -> Seq<char> {
    "column "@ + name + ": a second value within one occurrence of the list's anchor"@
}

/// What putting `value` into the cell `c` of `column` gives, its anchor
/// having occurred `count` times: a column that holds one value per
/// feature takes it once; a list column takes one per occurrence of its
/// anchor (at least one), null items filling the occurrences without one.
/// `Err` holds the message of a value that does not fit.
pub open spec fn put_spec(c: CellView, column: ColumnShape, count: int, value: Seq<char>) -> Result<CellView, Seq<char>> {
    if !column.list {
        match c {
            CellView::Null => Ok(CellView::Present(value)),
            _ => Err(second_value_message(column.name@)),
        }
    } else {
        let n = if count > 1 { count } else { 1 };
        let items = match c {
            CellView::List(items) => items,
            _ => Seq::empty(),
        };
        if items.len() >= n {
            Err(second_item_message(column.name@))
        } else {
            Ok(CellView::List(items + nulls(n - 1 - items.len()) + seq![Some(value)]))
        }
    }
}

/// The first failure of a row stays: a row without one gets `message`.
pub open spec fn first_error(error: Option<String>, message: Seq<char>) -> Option<Seq<char>> {
    match error {
        Some(e) => Some(e@),
        None => Some(message),
    }
}

/// The message for `name` between a fixed start and end.
fn column_message(name: &str, tail: &str) -> (r: String)
    ensures
        r@ == "column "@ + name@ + tail@,
{
    let mut m = owned("column ");
    append(&mut m, name);
    append(&mut m, tail);
    m
}

/// Record a failure: the first one of the row is kept.
fn fail(row: &mut RowTexts, message: String)
    ensures
        final(row).cells == old(row).cells,
        final(row).counts == old(row).counts,
        final(row).geometry_error == old(row).geometry_error,
        opt_string_view(final(row).error) == first_error(old(row).error, message@),
{
    if row.error.is_none() {
        row.error = Some(message);
    }
}

/// Put `value` into the cell at `index`, of `column`: a column that holds
/// one value per feature takes it once, a list column one per occurrence of
/// its anchor, null items filling the occurrences without a value. A value
/// that does not fit leaves the cells as they were and records the row's
/// failure, unless it has one already.
pub fn put_value(row: &mut RowTexts, column: &ColumnShape, index: usize, value: String)
    requires
        index < old(row).cells@.len(),
        column.list ==> column.anchor < old(row).counts@.len(),
    ensures
        final(row).counts == old(row).counts,
        final(row).geometry_error == old(row).geometry_error,
        final(row).cells@.len() == old(row).cells@.len(),
        match put_spec(
            cell_view(old(row).cells@[index as int]),
            *column,
            if column.list { old(row).counts@[column.anchor as int] as int } else { 0 },
            value@,
        ) {
            Ok(c) => cells_view(final(row).cells@) == cells_view(old(row).cells@).update(index as int, c)
                && final(row).error == old(row).error,
            Err(m) => cells_view(final(row).cells@) == cells_view(old(row).cells@) && opt_string_view(
                final(row).error,
            ) == first_error(old(row).error, m),
        },
{
    if !column.list {
        match &row.cells[index] {
            Cell::Null => {},
            _ => {
                let m = column_message(column.name.as_str(), ": a second value, but the column holds one per feature");
                fail(row, m);
                return;
            },
        }
        let ghost before = row.cells@;
        let v = Cell::Present(value);
        row.cells.set(index, v);
        proof {
            assert(cells_view(row.cells@) =~= cells_view(before).update(index as int, cell_view(v)));
        }
        return;
    }
    let counted = row.counts[column.anchor];
    let n: usize = if counted > 1 { counted as usize } else { 1 };
    let mut items: Vec<Option<String>> = match &row.cells[index] {
        Cell::List(items) => copy_items(items),
        _ => Vec::new(),
    };
    proof {
        if !(cell_view(row.cells@[index as int]) is List) {
            assert(items_view(items@) =~= Seq::<Option<Seq<char>>>::empty());
        }
    }
    if items.len() >= n {
        let m = column_message(column.name.as_str(), ": a second value within one occurrence of the list's anchor");
        fail(row, m);
        return;
    }
    let ghost start = items_view(items@);
    let mut padded = pad_items(&items, n - 1);
    proof {
        lemma_items_push(padded@, Some(value));
    }
    let ghost value_view = value@;
    padded.push(Some(value));
    assert(items_view(padded@) =~= start + nulls(n - 1 - start.len()) + seq![Some(value_view)]);
    let ghost before = row.cells@;
    let v = Cell::List(padded);
    row.cells.set(index, v);
    proof {
        assert(cells_view(row.cells@) =~= cells_view(before).update(index as int, cell_view(v)));
    }
}

/// Commit a feature's row: report its feature errors by `policy`, pad its
/// list columns to one entry per occurrence of their anchor, and check that
/// every non-null column got a value.
pub fn commit_row(row: RowTexts, columns: &[ColumnShape], policy: OnFeatureError) -> (r: RowOutcome)
    requires
        anchors_counted(row.cells@, columns@, row.counts@),
    ensures
        outcome_view(r) == committed(row, columns@, policy),
{
    let ghost whole = row;
    if let Some(m) = &row.error {
        let m = owned(m.as_str());
        return match fault_action(policy, FeatureFault::Value) {
            FaultAction::Skip => RowOutcome::Skipped(RowFault::Feature(m)),
            _ => RowOutcome::Failed(RowFault::Feature(m)),
        };
    }
    if let Some(m) = &row.geometry_error {
        let m = owned(m.as_str());
        match fault_action(policy, FeatureFault::Geometry) {
            FaultAction::Fail => return RowOutcome::Failed(RowFault::Feature(m)),
            FaultAction::Skip => return RowOutcome::Skipped(RowFault::Feature(m)),
            FaultAction::KeepRow => {},
        }
    }
    let cells = &row.cells;
    let counts = &row.counts;
    let ghost expected = padded_row(cells_view(cells@), columns@, counts@);
    let ghost geometry_kept = match whole.geometry_error {
        Some(m) => fault_outcome(policy, FeatureFault::Geometry, FaultView::Feature(m@)) is None,
        None => true,
    };
    assert(geometry_kept);
    let mut out: Vec<Cell> = Vec::new();
    let mut i: usize = 0;
    while i < cells.len()
        invariant
            i <= cells@.len(),
            expected == padded_row(cells_view(cells@), columns@, counts@),
            anchors_counted(cells@, columns@, counts@),
            cells_view(out@) == expected.take(i as int),
            whole == row,
            whole.cells == *cells,
            whole.counts == *counts,
            whole.error is None,
            geometry_kept,
            geometry_kept == match whole.geometry_error {
                Some(m) => fault_outcome(policy, FeatureFault::Geometry, FaultView::Feature(m@)) is None,
                None => true,
            },
        decreases cells.len() - i,
    {
        let cell = if i < columns.len() {
            let column = &columns[i];
            let count: usize = if column.list {
                counts[column.anchor] as usize
            } else {
                0
            };
            let c = pad_cell(&cells[i], column, count);
            proof {
                if !column.list {
                    assert(padded_cell(cell_view(cells@[i as int]), *column, count as int) == padded_cell(
                        cell_view(cells@[i as int]),
                        *column,
                        counts@[column.anchor as int] as int,
                    ));
                }
            }
            c
        } else {
            let c = pad_cell(&cells[i], &ColumnShape {
                name: String::new(),
                nullable: true,
                list: false,
                anchor: 0,
                item_nullable: true,
            }, 0);
            c
        };
        assert(cell_view(cell) == expected[i as int]);
        proof {
            lemma_cells_push(out@, cell);
        }
        out.push(cell);
        assert(cells_view(out@) =~= expected.take(i + 1));
        i = i + 1;
    }
    assert(expected.take(i as int) =~= expected);
    let n: usize = if out.len() < columns.len() {
        out.len()
    } else {
        columns.len()
    };
    let mut k: usize = 0;
    while k < n
        invariant
            k <= n,
            n <= out@.len(),
            n <= columns@.len(),
            cells_view(out@) == expected,
            first_missing(expected, columns@, k as int) is None,
            expected == padded_row(cells_view(whole.cells@), columns@, whole.counts@),
            whole == row,
            whole.error is None,
            geometry_kept,
            geometry_kept == match whole.geometry_error {
                Some(m) => fault_outcome(policy, FeatureFault::Geometry, FaultView::Feature(m@)) is None,
                None => true,
            },
            n == if out@.len() < columns@.len() { out@.len() } else { columns@.len() },
        decreases n - k,
    {
        let column = &columns[k];
        let missing = match &out[k] {
            Cell::Null => !column.nullable,
            Cell::List(items) => {
                let mut any_null = false;
                let mut j: usize = 0;
                while j < items.len()
                    invariant
                        j <= items@.len(),
                        any_null == exists|q: int| 0 <= q < j && items@[q] is None,
                    decreases items.len() - j,
                {
                    if items[j].is_none() {
                        any_null = true;
                    }
                    j = j + 1;
                }
                proof {
                    let iv = items_view(items@);
                    assert forall|q: int| 0 <= q < iv.len() implies (iv[q] is None <==> items@[q] is None) by {}
                    if any_null {
                        let q = choose|q: int| 0 <= q < j && items@[q] is None;
                        assert(iv[q] is None);
                    }
                }
                !column.item_nullable && any_null
            },
            Cell::Present(_) => false,
        };
        assert(missing == is_missing(expected[k as int], columns@[k as int]));
        if missing {
            proof {
                lemma_first_missing_stays(expected, columns@, k as int, n as int);
                assert(expected.len() == out@.len());
                assert(first_missing(expected, columns@, n as int) == Some(k as int));
                assert(fault_action_spec(policy, FeatureFault::Missing) != FaultAction::KeepRow);
                let geometry = match whole.geometry_error {
                    Some(m) => fault_outcome(policy, FeatureFault::Geometry, FaultView::Feature(m@)),
                    None => None,
                };
                assert(geometry is None);
                assert(committed(whole, columns@, policy) == fault_outcome(
                    policy,
                    FeatureFault::Missing,
                    FaultView::MissingValue(columns@[k as int].name@),
                )->0);
            }
            let name = owned(column.name.as_str());
            assert(name@ == columns@[k as int].name@);
            let fault = RowFault::MissingValue(name);
            assert(fault_view(fault) == FaultView::MissingValue(columns@[k as int].name@));
            let outcome = match fault_action(policy, FeatureFault::Missing) {
                FaultAction::Skip => RowOutcome::Skipped(fault),
                _ => RowOutcome::Failed(fault),
            };
            assert(outcome_view(outcome) == committed(whole, columns@, policy));
            return outcome;
        }
        k = k + 1;
    }
    RowOutcome::Row(out)
}

} // verus!
