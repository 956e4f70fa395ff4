//! Asserting that every column holds values of one expected type.

use crate::types::{check_if_type_matches, Type, TypeDef};
use crate::vec::{
    columns, flip_vec, group_offset, group_start, lemma_group_start_step,
    lemma_partition_flatten, lemma_partition_prefix, lemma_split_is_partition, partition,
    split_vec_equal,
};
use crate::Error;
use vstd::seq_lib::lemma_flatten_concat;
use vstd::prelude::*;

verus! {

/// Of every value of `column`, whether it is of type `expected`.
pub open spec fn verdicts(column: Seq<Seq<char>>, expected: TypeDef) -> Seq<bool> {
    column.map_values(|value: Seq<char>| expected.accepts(value))
}

/// The verdicts on every column of `columns`, column `c` held against
/// `expected[c]`.
pub open spec fn verdict_table(columns: Seq<Seq<Seq<char>>>, expected: Seq<TypeDef>) -> Seq<
    Seq<bool>,
> {
    Seq::new(columns.len(), |c: int| verdicts(columns[c], expected[c]))
}

/// The cells of a column that failed, from the top down, given the verdict
/// `fits` on each of its cells. A cell is the pair of its row and of
/// `index`, the column's place in the table.
pub open spec fn failed_in_column(fits: Seq<bool>, index: int) -> Seq<(usize, usize)> {
    Seq::new(fits.len(), |row: int| (row as usize, index as usize)).filter(
        |cell: (usize, usize)| !fits[cell.0 as int],
    )
}

/// The cells that failed, column after column, given the verdicts on the
/// columns that stand in the table from place `first` on.
pub open spec fn failed_cells(fits: Seq<Seq<bool>>, first: int) -> Seq<(usize, usize)> {
    Seq::new(fits.len(), |c: int| failed_in_column(fits[c], first + c)).flatten()
}

/// The failing cells of `columns`, column after column, where the columns
/// stand in the table from place `first` on and column `c` is held against
/// `expected[c]`.
pub open spec fn failures(columns: Seq<Seq<Seq<char>>>, expected: Seq<TypeDef>, first: int) -> Seq<
    (usize, usize),
> {
    failed_cells(verdict_table(columns, expected), first)
}

/// Holds every value of `column` against `expected`.
pub fn check_column(column: &[String], expected: &Type) -> (fits: Vec<bool>)
    ensures
        fits@ == verdicts(column.deep_view(), expected@),
{
    let mut fits: Vec<bool> = Vec::new();
    let mut row: usize = 0;
    while row < column.len()
        invariant
            row <= column.len(),
            fits.len() == row,
            forall|r: int| 0 <= r < row ==> fits[r] == expected@.accepts(#[trigger] column[r]@),
        decreases column.len() - row,
    {
        fits.push(check_if_type_matches(column[row].as_str(), expected));
        row += 1;
    }
    fits
}

/// The cells of one column that failed.
fn collect_failed_in_column(fits: &[bool], index: usize) -> (found: Vec<(usize, usize)>)
    ensures
        found@ == failed_in_column(fits@, index as int),
{
    let mut found: Vec<(usize, usize)> = Vec::new();
    let ghost cells = Seq::new(fits@.len(), |row: int| (row as usize, index as usize));
    let ghost failed = |cell: (usize, usize)| !fits@[cell.0 as int];
    let mut row: usize = 0;
    while row < fits.len()
        invariant
            row <= fits.len(),
            cells == Seq::new(fits@.len(), |row: int| (row as usize, index as usize)),
            failed == |cell: (usize, usize)| !fits@[cell.0 as int],
            found@ == cells.take(row as int).filter(failed),
        decreases fits.len() - row,
    {
        proof {
            assert(cells.take(row + 1) =~= cells.take(row as int).push(cells[row as int]));
            cells.take(row as int).lemma_filter_push(cells[row as int], failed);
        }
        if !fits[row] {
            found.push((row, index));
        }
        row += 1;
    }
    proof {
        assert(cells.take(row as int) =~= cells);
    }
    found
}

/// The cells that failed, given the verdicts `fits` of one worker on its
/// columns, which stand in the table from place `offset` on.
///
/// The cells come out in the order they were met, the columns from left to
/// right and each column from the top down. A cell's column is its place in
/// the whole table: its place among the worker's columns, moved on by
/// `offset`.
pub fn collect_failed_cells(fits: &[Vec<bool>], offset: usize) -> (found: Vec<(usize, usize)>)
    requires
        offset + fits.len() <= usize::MAX,
    ensures
        found@ == failed_cells(fits.deep_view(), offset as int),
{
    let mut found: Vec<(usize, usize)> = Vec::new();
    let ghost per_column = Seq::new(
        fits.deep_view().len(),
        |c: int| failed_in_column(fits.deep_view()[c], offset as int + c),
    );
    let mut col_index: usize = 0;
    while col_index < fits.len()
        invariant
            col_index <= fits.len(),
            offset + fits.len() <= usize::MAX,
            per_column == Seq::new(
                fits.deep_view().len(),
                |c: int| failed_in_column(fits.deep_view()[c], offset as int + c),
            ),
            found@ == per_column.take(col_index as int).flatten(),
        decreases fits.len() - col_index,
    {
        let mut in_column = collect_failed_in_column(fits[col_index].as_slice(), offset + col_index);
        proof {
            assert(fits.deep_view()[col_index as int] =~= fits[col_index as int]@);
            assert(per_column.take(col_index + 1) =~= per_column.take(col_index as int).push(
                per_column[col_index as int],
            ));
            per_column.take(col_index as int).lemma_flatten_push(per_column[col_index as int]);
        }
        found.append(&mut in_column);
        col_index += 1;
    }
    proof {
        assert(per_column.take(col_index as int) =~= per_column);
    }
    found
}

/// The failing cells of the columns of one worker: `col_set` holds the
/// columns that stand in the table from place `offset` on, and
/// `expected_types` the type of each of them.
///
/// The cells come out in the order they are met, the columns from left to
/// right and each column from the top down, and each with the place that its
/// column has in the whole table.
pub fn check_col_set(col_set: &[Vec<String>], expected_types: &[Type], offset: usize) -> (found:
    Vec<(usize, usize)>)
    requires
        col_set.len() <= expected_types.len(),
        offset + col_set.len() <= usize::MAX,
    ensures
        found@ == failures(col_set.deep_view(), expected_types.deep_view(), offset as int),
{
    let mut fits: Vec<Vec<bool>> = Vec::new();
    let mut col_index: usize = 0;
    while col_index < col_set.len()
        invariant
            col_index <= col_set.len() <= expected_types.len(),
            fits.len() == col_index,
            forall|c: int|
                0 <= c < col_index ==> (#[trigger] fits[c])@ == verdicts(
                    col_set[c].deep_view(),
                    expected_types[c]@,
                ),
        decreases col_set.len() - col_index,
    {
        fits.push(check_column(col_set[col_index].as_slice(), &expected_types[col_index]));
        col_index += 1;
    }
    proof {
        assert(fits.deep_view() =~~= verdict_table(
            col_set.deep_view(),
            expected_types.deep_view(),
        ));
    }
    collect_failed_cells(fits.as_slice(), offset)
}

/// The cells that `records` stand for: each record's row, paired with each
/// of its columns in turn.
pub open spec fn cells_of(records: Seq<(usize, Seq<usize>)>) -> Seq<(usize, usize)> {
    records.map_values(
        |record: (usize, Seq<usize>)| record.1.map_values(|column: usize| (record.0, column)),
    ).flatten()
}

/// Whether `records` is the grouping of a sequence of cells by runs of one
/// row: no record is empty, and no two neighbours are of the same row.
pub open spec fn grouped_by_runs(records: Seq<(usize, Seq<usize>)>) -> bool {
    &&& forall|i: int| 0 <= i < records.len() ==> (#[trigger] records[i]).1.len() > 0
    &&& forall|i: int| 0 < i < records.len() ==> (#[trigger] records[i]).0 != records[i - 1].0
}

/// The cells of records are those of the first record, then those of the
/// records behind it.
proof fn lemma_cells_of_first(records: Seq<(usize, Seq<usize>)>)
    requires
        records.len() > 0,
    ensures
        cells_of(records) == records[0].1.map_values(|column: usize| (records[0].0, column))
            + cells_of(records.drop_first()),
{
    let spread = |record: (usize, Seq<usize>)|
        record.1.map_values(|column: usize| (record.0, column));
    assert(records.map_values(spread).drop_first() =~= records.drop_first().map_values(spread));
}

/// Only one grouping by runs stands for a given sequence of cells.
pub proof fn lemma_grouping_unique(
    first: Seq<(usize, Seq<usize>)>,
    second: Seq<(usize, Seq<usize>)>,
)
    requires
        grouped_by_runs(first),
        grouped_by_runs(second),
        cells_of(first) == cells_of(second),
    ensures
        first == second,
    decreases first.len(),
{
    let cells = cells_of(first);
    if first.len() == 0 {
        assert(cells =~= Seq::empty());
        if second.len() > 0 {
            lemma_cells_of_first(second);
            assert(second[0].1.len() > 0);
        }
        assert(first =~= second);
    } else {
        lemma_cells_of_first(first);
        assert(first[0].1.len() > 0);
        if second.len() == 0 {
            assert(cells_of(second) =~= Seq::empty());
        }
        lemma_cells_of_first(second);
        assert(second[0].1.len() > 0);
        let a = first[0];
        let b = second[0];
        let a_cells = a.1.map_values(|column: usize| (a.0, column));
        let b_cells = b.1.map_values(|column: usize| (b.0, column));
        let a_rest = first.drop_first();
        let b_rest = second.drop_first();
        assert(cells[0] == a_cells[0]);
        assert(cells[0] == b_cells[0]);
        assert(a.0 == b.0);
        if a.1.len() < b.1.len() {
            let k = a.1.len() as int;
            assert(cells[k] == b_cells[k]);
            if a_rest.len() > 0 {
                lemma_cells_of_first(a_rest);
                assert(a_rest[0] == first[1]);
                assert(first[1].1.len() > 0);
                assert(cells[k] == cells_of(a_rest)[0]);
                assert(cells_of(a_rest)[0].0 == first[1].0);
            } else {
                assert(cells_of(a_rest) =~= Seq::empty());
            }
            assert(false);
        }
        if b.1.len() < a.1.len() {
            let k = b.1.len() as int;
            assert(cells[k] == a_cells[k]);
            if b_rest.len() > 0 {
                lemma_cells_of_first(b_rest);
                assert(b_rest[0] == second[1]);
                assert(second[1].1.len() > 0);
                assert(cells[k] == cells_of(b_rest)[0]);
                assert(cells_of(b_rest)[0].0 == second[1].0);
            } else {
                assert(cells_of(b_rest) =~= Seq::empty());
            }
            assert(false);
        }
        assert forall|k: int| 0 <= k < a.1.len() implies a.1[k] == b.1[k] by {
            assert(cells[k] == a_cells[k]);
            assert(cells[k] == b_cells[k]);
        }
        assert(a.1 =~= b.1);
        assert(a == b);
        assert(cells_of(a_rest) =~= cells.skip(a.1.len() as int));
        assert(cells_of(b_rest) =~= cells.skip(b.1.len() as int));
        assert forall|i: int| 0 <= i < a_rest.len() implies (#[trigger] a_rest[i]).1.len() > 0 by {
            assert(a_rest[i] == first[i + 1]);
        }
        assert forall|i: int| 0 < i < a_rest.len() implies (#[trigger] a_rest[i]).0 != a_rest[i
            - 1].0 by {
            assert(a_rest[i] == first[i + 1]);
            assert(a_rest[i - 1] == first[i]);
        }
        assert forall|i: int| 0 <= i < b_rest.len() implies (#[trigger] b_rest[i]).1.len() > 0 by {
            assert(b_rest[i] == second[i + 1]);
        }
        assert forall|i: int| 0 < i < b_rest.len() implies (#[trigger] b_rest[i]).0 != b_rest[i
            - 1].0 by {
            assert(b_rest[i] == second[i + 1]);
            assert(b_rest[i - 1] == second[i]);
        }
        lemma_grouping_unique(a_rest, b_rest);
        assert(first =~= seq![a] + a_rest);
        assert(second =~= seq![b] + b_rest);
    }
}

/// Gathers failing cells into one record per run of cells of the same row.
///
/// The cells are read in the order given. A row whose cells do not follow
/// each other gets a record for each of its runs: cells are never reordered.
pub fn join_failed_assertions(cells: &[(usize, usize)]) -> (records: Vec<(usize, Vec<usize>)>)
    ensures
        cells_of(records.deep_view()) == cells@,
        grouped_by_runs(records.deep_view()),
{
    let mut records: Vec<(usize, Vec<usize>)> = Vec::new();
    let mut index: usize = 0;
    while index < cells.len()
        invariant
            index <= cells.len(),
            cells_of(records.deep_view()) == cells@.take(index as int),
            grouped_by_runs(records.deep_view()),
            index > 0 ==> records.len() > 0,
            0 < index < cells.len() ==> records[records.len() - 1].0 != cells[index as int].0,
        decreases cells.len() - index,
    {
        let row = cells[index].0;
        let mut columns: Vec<usize> = Vec::new();
        let ghost done = records.deep_view();
        let ghost start = index;
        while index < cells.len() && cells[index].0 == row
            invariant
                start <= index <= cells.len(),
                start < cells.len(),
                cells[start as int].0 == row,
                columns@.len() == index - start,
                columns@.map_values(|column: usize| (row, column)) == cells@.subrange(
                    start as int,
                    index as int,
                ),
            decreases cells.len() - index,
        {
            columns.push(cells[index].1);
            index += 1;
        }
        proof {
            assert(columns.deep_view() =~= columns@);
            let record = (row, columns@);
            let spread = |record: (usize, Seq<usize>)|
                record.1.map_values(|column: usize| (record.0, column));
            done.lemma_push_map_commute(spread, record);
            done.map_values(spread).lemma_flatten_push(spread(record));
        }
        let ghost record = (row, columns@);
        records.push((row, columns));
        proof {
            assert(records.deep_view() =~= done.push(record));
        }
    }
    records
}

/// How many columns the first `sets` of `col_sets` hold together, which is
/// the place in the table of the first column of the set that follows them.
pub open spec fn columns_before(col_sets: Seq<Seq<Seq<Seq<char>>>>, sets: int) -> int {
    col_sets.take(sets).flatten().len() as int
}

/// The failing cells of a table whose columns are dealt out over `col_sets`,
/// set after set, each cell with the place its column has in the whole table.
pub open spec fn failures_in_sets(
    col_sets: Seq<Seq<Seq<Seq<char>>>>,
    expected_sets: Seq<Seq<TypeDef>>,
) -> Seq<(usize, usize)> {
    Seq::new(
        col_sets.len(),
        |i: int| failures(col_sets[i], expected_sets[i], columns_before(col_sets, i)),
    ).flatten()
}

/// One more set adds its columns to the count, and the count never exceeds
/// that of all sets.
proof fn lemma_columns_before_step(col_sets: Seq<Seq<Seq<Seq<char>>>>, sets: int)
    requires
        0 <= sets < col_sets.len(),
    ensures
        columns_before(col_sets, sets + 1) == columns_before(col_sets, sets) + col_sets[sets].len(),
        columns_before(col_sets, sets + 1) <= col_sets.flatten().len(),
{
    let upto = col_sets.take(sets);
    assert(col_sets.take(sets + 1) =~= upto.push(col_sets[sets]));
    upto.lemma_flatten_push(col_sets[sets]);
    assert(col_sets =~= col_sets.take(sets + 1) + col_sets.skip(sets + 1));
    lemma_flatten_concat(col_sets.take(sets + 1), col_sets.skip(sets + 1));
}

/// Holds every column of `col_sets` against its expected type and reports
/// the cells that fail, one record per run of failing cells of the same row.
///
/// `col_sets` are the columns of a table, dealt out in order over the
/// workers, and `expected_types` the expected types, dealt out alike. The
/// sets are gone through in order, so the cells are met column by column
/// from left to right, and each column from the top down.
pub fn check_for_type_match(col_sets: Vec<Vec<Vec<String>>>, expected_types: &[Vec<Type>]) -> (checked:
    Result<Vec<(usize, Vec<usize>)>, Error>)
    requires
        col_sets.len() == expected_types.len(),
        forall|i: int| 0 <= i < col_sets.len() ==> col_sets[i].len() <= expected_types[i].len(),
        col_sets.deep_view().flatten().len() <= usize::MAX,
    ensures
        checked matches Ok(records) && cells_of(records.deep_view()) == failures_in_sets(
            col_sets.deep_view(),
            expected_types.deep_view(),
        ) && grouped_by_runs(records.deep_view()),
{
    let mut mismatched: Vec<(usize, usize)> = Vec::new();
    let ghost per_set = Seq::new(
        col_sets.deep_view().len(),
        |i: int|
            failures(
                col_sets.deep_view()[i],
                expected_types.deep_view()[i],
                columns_before(col_sets.deep_view(), i),
            ),
    );
    let mut offset: usize = 0;
    let mut set_index: usize = 0;
    while set_index < col_sets.len()
        invariant
            set_index <= col_sets.len() == expected_types.len(),
            forall|i: int| 0 <= i < col_sets.len() ==> col_sets[i].len() <= expected_types[i].len(),
            col_sets.deep_view().flatten().len() <= usize::MAX,
            per_set == Seq::new(
                col_sets.deep_view().len(),
                |i: int|
                    failures(
                        col_sets.deep_view()[i],
                        expected_types.deep_view()[i],
                        columns_before(col_sets.deep_view(), i),
                    ),
            ),
            offset == columns_before(col_sets.deep_view(), set_index as int),
            mismatched@ == per_set.take(set_index as int).flatten(),
        decreases col_sets.len() - set_index,
    {
        proof {
            lemma_columns_before_step(col_sets.deep_view(), set_index as int);
        }
        let col_set = col_sets[set_index].as_slice();
        let expected = expected_types[set_index].as_slice();
        let mut in_set = check_col_set(col_set, expected, offset);
        proof {
            assert(per_set.take(set_index + 1) =~= per_set.take(set_index as int).push(
                per_set[set_index as int],
            ));
            per_set.take(set_index as int).lemma_flatten_push(per_set[set_index as int]);
        }
        mismatched.append(&mut in_set);
        offset += col_set.len();
        set_index += 1;
    }
    proof {
        assert(per_set.take(set_index as int) =~= per_set);
    }
    Ok(join_failed_assertions(mismatched.as_slice()))
}

/// The failed cells of two runs of columns that stand side by side are
/// those of the first run, then those of the second.
proof fn lemma_failed_cells_concat(left: Seq<Seq<bool>>, right: Seq<Seq<bool>>, first: int)
    ensures
        failed_cells(left + right, first) == failed_cells(left, first) + failed_cells(
            right,
            first + left.len(),
        ),
{
    let both = Seq::new(
        (left + right).len(),
        |c: int| failed_in_column((left + right)[c], first + c),
    );
    let of_left = Seq::new(left.len(), |c: int| failed_in_column(left[c], first + c));
    let of_right = Seq::new(
        right.len(),
        |c: int| failed_in_column(right[c], first + left.len() + c),
    );
    assert(both =~= of_left + of_right);
    lemma_flatten_concat(of_left, of_right);
}

/// The failing cells of two runs of columns that stand side by side are
/// those of the first run, then those of the second.
proof fn lemma_failures_concat(
    left: Seq<Seq<Seq<char>>>,
    left_expected: Seq<TypeDef>,
    right: Seq<Seq<Seq<char>>>,
    right_expected: Seq<TypeDef>,
    first: int,
)
    requires
        left.len() == left_expected.len(),
        right.len() <= right_expected.len(),
    ensures
        failures(left + right, left_expected + right_expected, first) == failures(
            left,
            left_expected,
            first,
        ) + failures(right, right_expected, first + left.len()),
{
    assert(verdict_table(left + right, left_expected + right_expected) =~= verdict_table(
        left,
        left_expected,
    ) + verdict_table(right, right_expected));
    lemma_failed_cells_concat(
        verdict_table(left, left_expected),
        verdict_table(right, right_expected),
        first,
    );
}

/// However the columns of a table and their expected types are dealt out
/// over workers, the failing cells are those of the table, in the same order.
pub proof fn lemma_failures_in_sets(
    col_sets: Seq<Seq<Seq<Seq<char>>>>,
    expected_sets: Seq<Seq<TypeDef>>,
)
    requires
        col_sets.len() == expected_sets.len(),
        forall|i: int| 0 <= i < col_sets.len() ==> col_sets[i].len() == expected_sets[i].len(),
    ensures
        col_sets.flatten().len() == expected_sets.flatten().len(),
        failures_in_sets(col_sets, expected_sets) == failures(
            col_sets.flatten(),
            expected_sets.flatten(),
            0,
        ),
    decreases col_sets.len(),
{
    if col_sets.len() > 0 {
        let n = col_sets.len() - 1;
        let fewer = col_sets.drop_last();
        let fewer_expected = expected_sets.drop_last();
        lemma_failures_in_sets(fewer, fewer_expected);
        let per_set = Seq::new(
            col_sets.len(),
            |i: int| failures(col_sets[i], expected_sets[i], columns_before(col_sets, i)),
        );
        let per_fewer = Seq::new(
            fewer.len(),
            |i: int| failures(fewer[i], fewer_expected[i], columns_before(fewer, i)),
        );
        assert forall|i: int| 0 <= i < n implies per_set[i] == per_fewer[i] by {
            assert(col_sets.take(i) =~= fewer.take(i));
        }
        assert(per_set =~= per_fewer.push(per_set[n]));
        per_fewer.lemma_flatten_push(per_set[n]);
        assert(col_sets =~= fewer.push(col_sets[n]));
        assert(expected_sets =~= fewer_expected.push(expected_sets[n]));
        fewer.lemma_flatten_push(col_sets[n]);
        fewer_expected.lemma_flatten_push(expected_sets[n]);
        lemma_failures_concat(
            fewer.flatten(),
            fewer_expected.flatten(),
            col_sets[n],
            expected_sets[n],
            0,
        );
    }
}

/// The failing cells that the worker at place `worker` finds, when the
/// columns and their expected types are dealt out over `workers` workers.
pub open spec fn failures_of_worker(
    columns: Seq<Seq<Seq<char>>>,
    expected: Seq<TypeDef>,
    workers: int,
    worker: int,
) -> Seq<(usize, usize)> {
    failures(
        partition(columns, workers)[worker],
        partition(expected, workers)[worker],
        group_start(columns.len() as int, workers, worker),
    )
}

/// Over however many workers the columns and their expected types are dealt
/// out, the failing cells that the workers find, put end to end in the order
/// of the workers, are those of the table, column by column.
pub proof fn lemma_failures_any_workers(
    columns: Seq<Seq<Seq<char>>>,
    expected: Seq<TypeDef>,
    workers: int,
)
    requires
        workers >= 1,
        columns.len() == expected.len(),
    ensures
        Seq::new(
            workers as nat,
            |worker: int| failures_of_worker(columns, expected, workers, worker),
        ).flatten() == failures(columns, expected, 0),
{
    let col_sets = partition(columns, workers);
    let expected_sets = partition(expected, workers);
    assert forall|i: int| 0 <= i < col_sets.len() implies col_sets[i].len()
        == expected_sets[i].len() by {
        lemma_group_start_step(columns.len() as int, workers, i);
    }
    lemma_failures_in_sets(col_sets, expected_sets);
    lemma_partition_flatten(columns, workers);
    lemma_partition_flatten(expected, workers);
    let per_worker = Seq::new(
        workers as nat,
        |worker: int| failures_of_worker(columns, expected, workers, worker),
    );
    let per_set = Seq::new(
        col_sets.len(),
        |i: int| failures(col_sets[i], expected_sets[i], columns_before(col_sets, i)),
    );
    assert forall|i: int| 0 <= i < workers implies per_worker[i] == per_set[i] by {
        lemma_partition_prefix(columns, workers, i);
    }
    assert(per_worker =~= per_set);
}

/// The share of one worker in holding a table against the types expected of
/// its columns: some columns that stand side by side in the table, the type
/// expected of each, and the place in the table of the first of them.
pub struct ColumnSet {
    pub columns: Vec<Vec<String>>,
    pub expected_types: Vec<Type>,
    pub offset: usize,
}

impl ColumnSet {
    /// Whether the share can be worked on: there is a type for every column,
    /// and the place of every column is a number that fits.
    pub open spec fn ready(self) -> bool {
        &&& self.columns.len() <= self.expected_types.len()
        &&& self.offset + self.columns.len() <= usize::MAX
    }

    /// The failing cells of the share, each with the place that its column
    /// has in the whole table.
    pub fn check(&self) -> (found: Vec<(usize, usize)>)
        requires
            self.ready(),
        ensures
            found@ == failures(
                self.columns.deep_view(),
                self.expected_types.deep_view(),
                self.offset as int,
            ),
    {
        check_col_set(self.columns.as_slice(), self.expected_types.as_slice(), self.offset)
    }
}

/// Whether `sets` are the shares of `workers` workers in holding the columns
/// `table` against the types `expected`: worker `i` has the group of columns
/// at place `i`, the types expected of them, and the place where they start.
pub open spec fn shares(
    sets: Seq<ColumnSet>,
    table: Seq<Seq<Seq<char>>>,
    expected: Seq<TypeDef>,
    workers: int,
) -> bool {
    &&& sets.len() == workers
    &&& forall|i: int|
        0 <= i < workers ==> {
            &&& (#[trigger] sets[i]).ready()
            &&& sets[i].columns.deep_view() == partition(table, workers)[i]
            &&& sets[i].expected_types.deep_view() == partition(expected, workers)[i]
            &&& sets[i].offset == group_start(table.len() as int, workers, i)
        }
}

/// Deals the columns of the table `csv` and the types expected of them out
/// over `max_threads` workers.
///
/// Fails with [`Error::ThreadCount`] where `max_threads` is 0, and otherwise
/// with [`Error::ColumnCountNotMatching`] where there are not as many
/// expected types as the table has columns.
pub fn deal_out(csv: Vec<Vec<String>>, expected_types: &[Type], max_threads: usize) -> (dealt: Result<
    Vec<ColumnSet>,
    Error,
>)
    ensures
        match dealt {
            Ok(sets) => {
                &&& max_threads >= 1
                &&& columns(csv.deep_view()).len() == expected_types.len()
                &&& shares(
                    sets@,
                    columns(csv.deep_view()),
                    expected_types.deep_view(),
                    max_threads as int,
                )
            },
            Err(e) => if max_threads == 0 {
                e == Error::ThreadCount
            } else {
                columns(csv.deep_view()).len() != expected_types.len() && e
                    == Error::ColumnCountNotMatching
            },
        },
{
    if max_threads == 0 {
        return Err(Error::ThreadCount);
    }
    let flipped_csv = flip_vec(csv.as_slice());
    if flipped_csv.len() != expected_types.len() {
        return Err(Error::ColumnCountNotMatching);
    }
    let all_columns = flipped_csv.as_slice();
    let mut col_sets = split_vec_equal(all_columns, max_threads);
    let mut expected_sets = split_vec_equal(expected_types, max_threads);
    let ghost table = all_columns.deep_view();
    let ghost expected = expected_types.deep_view();
    let ghost workers = max_threads as int;
    proof {
        lemma_split_is_partition(all_columns, col_sets, max_threads);
        lemma_split_is_partition(expected_types, expected_sets, max_threads);
    }
    let mut sets: Vec<ColumnSet> = Vec::new();
    let mut set_index: usize = 0;
    while set_index < max_threads
        invariant
            set_index <= max_threads,
            workers == max_threads,
            table.len() == expected.len() == flipped_csv.len(),
            col_sets.len() == max_threads - set_index,
            expected_sets.len() == max_threads - set_index,
            col_sets.deep_view() == partition(table, workers).skip(set_index as int),
            expected_sets.deep_view() == partition(expected, workers).skip(set_index as int),
            sets.len() == set_index,
            forall|i: int|
                0 <= i < set_index ==> {
                    &&& (#[trigger] sets[i]).ready()
                    &&& sets[i].columns.deep_view() == partition(table, workers)[i]
                    &&& sets[i].expected_types.deep_view() == partition(expected, workers)[i]
                    &&& sets[i].offset == group_start(table.len() as int, workers, i)
                },
        decreases max_threads - set_index,
    {
        let ghost columns_left = col_sets;
        let ghost expected_left = expected_sets;
        let columns = col_sets.remove(0);
        let expected_of_them = expected_sets.remove(0);
        let offset = group_offset(flipped_csv.len(), max_threads, set_index);
        proof {
            lemma_group_start_step(table.len() as int, workers, set_index as int);
            assert(columns.deep_view() == columns_left.deep_view()[0]);
            assert(expected_of_them.deep_view() == expected_left.deep_view()[0]);
            assert forall|i: int| 0 <= i < col_sets.len() implies col_sets.deep_view()[i]
                == partition(table, workers).skip(set_index + 1)[i] by {
                assert(columns_left.deep_view()[i + 1] == columns_left[i + 1].deep_view());
            }
            assert forall|i: int| 0 <= i < expected_sets.len() implies expected_sets.deep_view()[i]
                == partition(expected, workers).skip(set_index + 1)[i] by {
                assert(expected_left.deep_view()[i + 1] == expected_left[i + 1].deep_view());
            }
        }
        sets.push(ColumnSet { columns, expected_types: expected_of_them, offset });
        set_index += 1;
    }
    Ok(sets)
}

/// Holds every column of the table `csv` against its expected type and
/// reports the cells that fail: one record per run of failing cells of the
/// same row, the cells taken column by column from left to right and each
/// column from the top down. A row that fails in columns between which
/// another row fails as well therefore gets a record for each of its runs.
/// The columns are dealt out over `max_threads` workers; how many there are
/// does not change the answer.
///
/// Fails with [`Error::ThreadCount`] where `max_threads` is 0, and otherwise
/// with [`Error::ColumnCountNotMatching`] where there are not as many
/// expected types as the table has columns.
pub fn assert_matching_rows(csv: Vec<Vec<String>>, expected_types: &[Type], max_threads: usize) -> (checked:
    Result<Vec<(usize, Vec<usize>)>, Error>)
    ensures
        match checked {
            Ok(records) => {
                &&& max_threads >= 1
                &&& columns(csv.deep_view()).len() == expected_types.len()
                &&& cells_of(records.deep_view()) == failures(
                    columns(csv.deep_view()),
                    expected_types.deep_view(),
                    0,
                )
                &&& grouped_by_runs(records.deep_view())
            },
            Err(e) => if max_threads == 0 {
                e == Error::ThreadCount
            } else {
                columns(csv.deep_view()).len() != expected_types.len() && e
                    == Error::ColumnCountNotMatching
            },
        },
{
    let sets = match deal_out(csv, expected_types, max_threads) {
        Ok(sets) => sets,
        Err(e) => {
            return Err(e);
        },
    };
    let ghost table = columns(csv.deep_view());
    let ghost expected = expected_types.deep_view();
    let ghost workers = max_threads as int;
    let ghost per_worker = Seq::new(
        workers as nat,
        |worker: int| failures_of_worker(table, expected, workers, worker),
    );
    let mut mismatched: Vec<(usize, usize)> = Vec::new();
    let mut set_index: usize = 0;
    while set_index < sets.len()
        invariant
            set_index <= sets.len(),
            workers == max_threads,
            shares(sets@, table, expected, workers),
            per_worker == Seq::new(
                workers as nat,
                |worker: int| failures_of_worker(table, expected, workers, worker),
            ),
            mismatched@ == per_worker.take(set_index as int).flatten(),
        decreases sets.len() - set_index,
    {
        let mut found = sets[set_index].check();
        proof {
            assert(per_worker.take(set_index + 1) =~= per_worker.take(set_index as int).push(
                per_worker[set_index as int],
            ));
            per_worker.take(set_index as int).lemma_flatten_push(per_worker[set_index as int]);
        }
        mismatched.append(&mut found);
        set_index += 1;
    }
    proof {
        assert(per_worker.take(set_index as int) =~= per_worker);
        lemma_failures_any_workers(table, expected, workers);
    }
    Ok(join_failed_assertions(mismatched.as_slice()))
}

} // verus!
