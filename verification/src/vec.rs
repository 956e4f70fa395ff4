//! Turning a table on its side, and dealing its columns out to workers.

use crate::parse::parse_text;
use crate::sequences::lemma_filter_all;
use crate::CsvInput;
use vstd::arithmetic::div_mod::lemma_fundamental_div_mod;
use vstd::prelude::*;

verus! {

/// The table that `csv_input` stands for.
pub fn csv_to_vec(csv_input: CsvInput) -> (csv: Vec<Vec<String>>)
    ensures
        csv.deep_view() == csv_input.document(),
{
    match csv_input {
        CsvInput::Csv(text) => parse_text(text, ','),
        CsvInput::Separated(text, separator) => parse_text(text, separator),
        CsvInput::Rows(rows) => rows,
    }
}

/// How many of `count` items the group at place `index` gets when they are
/// dealt out over `groups` groups: the quotient, and one more in as many of
/// the first groups as the division leaves over.
pub open spec fn group_len(count: int, groups: int, index: int) -> int {
    count / groups + if index < count % groups {
        1int
    } else {
        0int
    }
}

/// Where the group at place `index` starts: the items of all groups before it.
pub open spec fn group_start(count: int, groups: int, index: int) -> int {
    index * (count / groups) + if index < count % groups {
        index
    } else {
        count % groups
    }
}

/// `items` dealt out over `groups` groups, each a run of neighbours.
pub open spec fn partition<T>(items: Seq<T>, groups: int) -> Seq<Seq<T>> {
    Seq::new(
        groups as nat,
        |i: int|
            items.subrange(
                group_start(items.len() as int, groups, i),
                group_start(items.len() as int, groups, i + 1),
            ),
    )
}

/// A group starts where the one before it ends, and no group reaches beyond
/// the items.
pub proof fn lemma_group_start_step(count: int, groups: int, index: int)
    requires
        0 <= count,
        0 <= index < groups,
    ensures
        0 <= group_start(count, groups, index),
        group_start(count, groups, index + 1) == group_start(count, groups, index) + group_len(
            count,
            groups,
            index,
        ),
        group_start(count, groups, index + 1) <= count,
{
    let share = count / groups;
    lemma_fundamental_div_mod(count, groups);
    assert((index + 1) * share == index * share + share) by (nonlinear_arith);
    assert(0 <= index * share && (index + 1) * share <= groups * share) by (nonlinear_arith)
        requires
            0 <= index < groups,
            0 <= share,
    ;
}

/// The groups start at the first item and end with the last.
pub proof fn lemma_group_start_ends(count: int, groups: int)
    requires
        0 <= count,
        0 < groups,
    ensures
        group_start(count, groups, 0) == 0,
        group_start(count, groups, groups) == count,
{
    lemma_fundamental_div_mod(count, groups);
}

/// Where the group at place `index` starts, or, for `index == groups`, where
/// the last group ends.
pub fn group_offset(count: usize, groups: usize, index: usize) -> (start: usize)
    requires
        groups >= 1,
        index <= groups,
    ensures
        start == group_start(count as int, groups as int, index as int),
        start <= count,
{
    let share = count / groups;
    let rest = count % groups;
    proof {
        lemma_group_start_ends(count as int, groups as int);
        if index < groups {
            lemma_group_start_step(count as int, groups as int, index as int);
        }
        if index > 0 {
            lemma_group_start_step(count as int, groups as int, index - 1);
        }
        lemma_fundamental_div_mod(count as int, groups as int);
    }
    index * share + if index < rest {
        index
    } else {
        rest
    }
}

/// Every group has the length that [`group_len`] gives, and no group is
/// longer than one before it.
pub proof fn lemma_partition_lens<T>(items: Seq<T>, groups: int, i: int, j: int)
    requires
        0 <= i <= j < groups,
    ensures
        partition(items, groups).len() == groups,
        partition(items, groups)[i].len() == group_len(items.len() as int, groups, i),
        partition(items, groups)[j].len() == group_len(items.len() as int, groups, j),
        partition(items, groups)[i].len() >= partition(items, groups)[j].len(),
{
    lemma_group_start_step(items.len() as int, groups, i);
    lemma_group_start_step(items.len() as int, groups, j);
}

/// The first `upto` groups, end to end, are the items before the group at
/// place `upto`.
pub proof fn lemma_partition_prefix<T>(items: Seq<T>, groups: int, upto: int)
    requires
        0 <= upto <= groups,
        0 < groups,
    ensures
        0 <= group_start(items.len() as int, groups, upto) <= items.len(),
        partition(items, groups).take(upto).flatten() == items.take(
            group_start(items.len() as int, groups, upto),
        ),
    decreases upto,
{
    let count = items.len() as int;
    let parts = partition(items, groups);
    if upto == 0 {
        lemma_group_start_ends(count, groups);
    } else {
        lemma_partition_prefix(items, groups, upto - 1);
        lemma_group_start_step(count, groups, upto - 1);
        assert(parts.take(upto) =~= parts.take(upto - 1).push(parts[upto - 1]));
        parts.take(upto - 1).lemma_flatten_push(parts[upto - 1]);
    }
}

/// Dealing items out and putting the groups end to end again gives the items
/// back, in their order.
pub proof fn lemma_partition_flatten<T>(items: Seq<T>, groups: int)
    requires
        0 < groups,
    ensures
        partition(items, groups).flatten() == items,
{
    lemma_partition_prefix(items, groups, groups);
    lemma_group_start_ends(items.len() as int, groups);
    assert(partition(items, groups).take(groups) =~= partition(items, groups));
}

/// Whether `split` is `items` dealt out over `groups` groups of neighbours:
/// the groups are as long as [`group_len`] says, and each of their items is
/// a clone of the item of `items` at its place.
pub open spec fn dealt_out<T: Clone>(items: Seq<T>, split: Seq<Vec<T>>, groups: int) -> bool {
    &&& split.len() == groups
    &&& forall|i: int|
        0 <= i < groups ==> (#[trigger] split[i]).len() == group_len(items.len() as int, groups, i)
    &&& forall|i: int, j: int|
        0 <= i < groups && 0 <= j < split[i].len() ==> cloned(
            items[group_start(items.len() as int, groups, i) + j],
            #[trigger] split[i][j],
        )
}

/// Deals the items of `vec` out over `max_threads` groups of neighbours.
///
/// The groups come in order and are as long as [`group_len`] says, so the
/// first ones are longer by one where the division leaves a rest. Each item
/// is a clone of the item of `vec` at its place.
pub fn split_vec_equal<T: Clone>(vec: &[T], max_threads: usize) -> (split: Vec<Vec<T>>)
    requires
        max_threads >= 1,
    ensures
        dealt_out(vec@, split@, max_threads as int),
{
    let count = vec.len();
    let share = count / max_threads;
    let rest = count % max_threads;
    let mut split: Vec<Vec<T>> = Vec::new();
    let mut end: usize = 0;
    let mut i: usize = 0;
    proof {
        lemma_group_start_ends(count as int, max_threads as int);
    }
    while i < max_threads
        invariant
            i <= max_threads,
            count == vec.len(),
            share == count / max_threads,
            rest == count % max_threads,
            end == group_start(count as int, max_threads as int, i as int),
            end <= count,
            split.len() == i,
            forall|g: int|
                0 <= g < i ==> (#[trigger] split[g]).len() == group_len(
                    count as int,
                    max_threads as int,
                    g,
                ),
            forall|g: int, j: int|
                0 <= g < i && 0 <= j < split[g].len() ==> cloned(
                    vec[group_start(count as int, max_threads as int, g) + j],
                    #[trigger] split[g][j],
                ),
        decreases max_threads - i,
    {
        proof {
            lemma_group_start_step(count as int, max_threads as int, i as int);
        }
        let start = end;
        end += share;
        if rest > i {
            end += 1;
        }
        let mut group: Vec<T> = Vec::new();
        let mut at = start;
        while at < end
            invariant
                start <= at <= end <= vec.len(),
                group.len() == at - start,
                forall|j: int| 0 <= j < group.len() ==> cloned(vec[start + j], #[trigger] group[j]),
            decreases end - at,
        {
            group.push(vec[at].clone());
            at += 1;
        }
        split.push(group);
        i += 1;
    }
    split
}

/// The length of the longest row.
pub open spec fn width(rows: Seq<Seq<Seq<char>>>) -> nat
    decreases rows.len(),
{
    if rows.len() == 0 {
        0
    } else if width(rows.drop_last()) >= rows.last().len() {
        width(rows.drop_last())
    } else {
        rows.last().len()
    }
}

/// The column at place `index`: the cell at that place of every row that is
/// long enough to have one, from the top down.
pub open spec fn column(rows: Seq<Seq<Seq<char>>>, index: int) -> Seq<Seq<char>> {
    rows.filter(|row: Seq<Seq<char>>| index < row.len()).map_values(
        |row: Seq<Seq<char>>| row[index],
    )
}

/// The table turned on its side: its columns from left to right, as many as
/// the longest row has cells. A short row leaves no gap in a column that it
/// does not reach.
pub open spec fn columns(rows: Seq<Seq<Seq<char>>>) -> Seq<Seq<Seq<char>>> {
    Seq::new(width(rows), |index: int| column(rows, index))
}

/// No row is longer than the table is wide, and, unless the table has no
/// cell at all, one row is that long.
pub proof fn lemma_width(rows: Seq<Seq<Seq<char>>>)
    ensures
        forall|i: int| 0 <= i < rows.len() ==> (#[trigger] rows[i]).len() <= width(rows),
        width(rows) > 0 ==> exists|i: int| 0 <= i < rows.len() && (#[trigger] rows[i]).len() == width(rows),
    decreases rows.len(),
{
    if rows.len() > 0 {
        let before = rows.drop_last();
        lemma_width(before);
        assert forall|i: int| 0 <= i < rows.len() implies (#[trigger] rows[i]).len() <= width(
            rows,
        ) by {
            if i < before.len() {
                assert(rows[i] == before[i]);
            }
        }
        if width(rows) > 0 {
            if width(before) >= rows.last().len() {
                let i = choose|i: int|
                    0 <= i < before.len() && (#[trigger] before[i]).len() == width(before);
                assert(rows[i].len() == width(rows));
            }
        }
    }
}

/// In a table whose rows are all of one length, the columns are that many,
/// each holds a cell of every row, and the cell of a column at the place of
/// a row is the cell of that row at the place of the column.
pub proof fn lemma_columns_of_rectangle(rows: Seq<Seq<Seq<char>>>, wide: nat, row: int, index: int)
    requires
        forall|i: int| 0 <= i < rows.len() ==> (#[trigger] rows[i]).len() == wide,
        0 <= row < rows.len(),
        0 <= index < wide,
    ensures
        columns(rows).len() == wide,
        columns(rows)[index].len() == rows.len(),
        columns(rows)[index][row] == rows[row][index],
{
    lemma_width(rows);
    lemma_filter_all(rows, |cells: Seq<Seq<char>>| index < cells.len());
}

/// The length of the longest row.
fn widest(rows: &[Vec<String>]) -> (longest: usize)
    ensures
        longest == width(rows.deep_view()),
{
    let mut longest: usize = 0;
    let mut i: usize = 0;
    while i < rows.len()
        invariant
            i <= rows.len(),
            longest == width(rows.deep_view().take(i as int)),
        decreases rows.len() - i,
    {
        proof {
            let upto = rows.deep_view().take(i + 1);
            assert(upto.drop_last() =~= rows.deep_view().take(i as int));
        }
        if rows[i].len() > longest {
            longest = rows[i].len();
        }
        i += 1;
    }
    proof {
        assert(rows.deep_view().take(i as int) =~= rows.deep_view());
    }
    longest
}

/// Turns a table of rows into its columns.
///
/// Rows may differ in length: a column holds the cells of the rows that
/// reach it and nothing for the others.
pub fn flip_vec(vec: &[Vec<String>]) -> (flipped: Vec<Vec<String>>)
    ensures
        flipped.deep_view() == columns(vec.deep_view()),
{
    let wide = widest(vec);
    let ghost rows = vec.deep_view();
    let mut flipped: Vec<Vec<String>> = Vec::new();
    let mut column_id: usize = 0;
    while column_id < wide
        invariant
            column_id <= wide == width(rows),
            rows == vec.deep_view(),
            flipped.len() == column_id,
            forall|c: int| 0 <= c < column_id ==> (#[trigger] flipped[c]).deep_view() == column(rows, c),
        decreases wide - column_id,
    {
        let mut column_cells: Vec<String> = Vec::new();
        let ghost reaches = |row: Seq<Seq<char>>| (column_id as int) < row.len();
        let ghost cell = |row: Seq<Seq<char>>| row[column_id as int];
        let mut row_id: usize = 0;
        while row_id < vec.len()
            invariant
                row_id <= vec.len(),
                rows == vec.deep_view(),
                reaches == |row: Seq<Seq<char>>| (column_id as int) < row.len(),
                cell == |row: Seq<Seq<char>>| row[column_id as int],
                column_cells.deep_view() == rows.take(row_id as int).filter(reaches).map_values(cell),
            decreases vec.len() - row_id,
        {
            let row = &vec[row_id];
            proof {
                let seen = rows.take(row_id as int);
                assert(rows.take(row_id + 1) =~= seen.push(rows[row_id as int]));
                seen.lemma_filter_push(rows[row_id as int], reaches);
                seen.filter(reaches).lemma_push_map_commute(cell, rows[row_id as int]);
            }
            if column_id < row.len() {
                column_cells.push(row[column_id].clone());
            }
            row_id += 1;
        }
        proof {
            assert(rows.take(row_id as int) =~= rows);
        }
        flipped.push(column_cells);
        column_id += 1;
    }
    flipped
}

/// What [`split_vec_equal`] returns, seen through the views of the items,
/// is [`partition`], for items whose clones look like them.
pub proof fn lemma_split_is_partition<T: Clone + DeepView>(
    vec: &[T],
    split: Vec<Vec<T>>,
    max_threads: usize,
)
    requires
        max_threads >= 1,
        dealt_out(vec@, split@, max_threads as int),
        forall|a: T, b: T| #[trigger] cloned(a, b) ==> a.deep_view() == b.deep_view(),
    ensures
        split.deep_view() == partition(vec.deep_view(), max_threads as int),
{
    let count = vec.len() as int;
    let groups = max_threads as int;
    let parts = partition(vec.deep_view(), groups);
    assert forall|i: int| 0 <= i < groups implies #[trigger] split.deep_view()[i] == parts[i] by {
        lemma_group_start_step(count, groups, i);
        assert forall|j: int| 0 <= j < split[i].len() implies split[i].deep_view()[j]
            == parts[i][j] by {}
    }
}

} // verus!
