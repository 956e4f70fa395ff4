//! Finding, for every column of a table, the types that fit it.

use crate::types::{get_matching_types as types_of_column, matching_types, Type, TypeDef, TypeList};
use crate::vec::{
    columns, flip_vec, lemma_partition_flatten, lemma_split_is_partition,
    partition, split_vec_equal,
};
use crate::Error;
use vstd::prelude::*;

verus! {

/// For each of `columns`, the types of `types` that fit it.
pub open spec fn column_types(columns: Seq<Seq<Seq<char>>>, types: Seq<TypeDef>) -> Seq<
    Seq<TypeDef>,
> {
    columns.map_values(|column: Seq<Seq<char>>| matching_types(types, column))
}

/// The work of one worker: the types that fit each column of `col_set`.
pub fn search_col_set(col_set: &[Vec<String>], type_list: &[Type]) -> (col_types: Vec<Vec<Type>>)
    ensures
        col_types.deep_view() == column_types(col_set.deep_view(), type_list.deep_view()),
{
    let mut col_types: Vec<Vec<Type>> = Vec::new();
    let mut index: usize = 0;
    while index < col_set.len()
        invariant
            index <= col_set.len(),
            col_types.len() == index,
            forall|c: int|
                0 <= c < index ==> (#[trigger] col_types[c]).deep_view() == matching_types(
                    type_list.deep_view(),
                    col_set[c].deep_view(),
                ),
        decreases col_set.len() - index,
    {
        col_types.push(types_of_column(col_set[index].as_slice(), type_list));
        index += 1;
    }
    col_types
}

/// Finding the types set by set and putting the answers end to end is
/// finding them for all columns at once.
pub proof fn lemma_column_types_of_sets(col_sets: Seq<Seq<Seq<Seq<char>>>>, types: Seq<TypeDef>)
    ensures
        col_sets.map_values(|col_set: Seq<Seq<Seq<char>>>| column_types(col_set, types)).flatten()
            == column_types(col_sets.flatten(), types),
    decreases col_sets.len(),
{
    let per_set = |col_set: Seq<Seq<Seq<char>>>| column_types(col_set, types);
    if col_sets.len() > 0 {
        let fewer = col_sets.drop_last();
        let last = col_sets.last();
        lemma_column_types_of_sets(fewer, types);
        assert(col_sets =~= fewer.push(last));
        fewer.lemma_push_map_commute(per_set, last);
        fewer.map_values(per_set).lemma_flatten_push(per_set(last));
        fewer.lemma_flatten_push(last);
    }
}

/// Over however many workers the columns are dealt out, their answers put
/// end to end in the order of the workers are the answers for the columns
/// in the order of the columns.
pub proof fn lemma_column_types_any_workers(
    columns: Seq<Seq<Seq<char>>>,
    types: Seq<TypeDef>,
    workers: int,
)
    requires
        workers >= 1,
    ensures
        partition(columns, workers).map_values(
            |col_set: Seq<Seq<Seq<char>>>| column_types(col_set, types),
        ).flatten() == column_types(columns, types),
{
    lemma_column_types_of_sets(partition(columns, workers), types);
    lemma_partition_flatten(columns, workers);
}

/// The types that fit each column, found set by set: `col_sets` are the
/// columns of a table, dealt out in order over the workers. The answers
/// stand in the order of the columns.
pub fn search_types(col_sets: Vec<Vec<Vec<String>>>, type_list: &TypeList) -> (found: Result<
    Vec<Vec<Type>>,
    Error,
>)
    ensures
        found matches Ok(col_types) && col_types.deep_view() == column_types(
            col_sets.deep_view().flatten(),
            type_list@,
        ),
{
    let types = type_list.get_types_vec();
    let mut col_types: Vec<Vec<Type>> = Vec::new();
    let ghost sets = col_sets.deep_view();
    let ghost per_set = |col_set: Seq<Seq<Seq<char>>>| column_types(col_set, type_list@);
    let mut index: usize = 0;
    while index < col_sets.len()
        invariant
            index <= col_sets.len(),
            sets == col_sets.deep_view(),
            types.deep_view() == type_list@,
            per_set == |col_set: Seq<Seq<Seq<char>>>| column_types(col_set, type_list@),
            col_types.deep_view() == sets.take(index as int).map_values(per_set).flatten(),
        decreases col_sets.len() - index,
    {
        let mut in_set = search_col_set(col_sets[index].as_slice(), types.as_slice());
        proof {
            let seen = sets.take(index as int);
            assert(sets.take(index + 1) =~= seen.push(sets[index as int]));
            seen.lemma_push_map_commute(per_set, sets[index as int]);
            seen.map_values(per_set).lemma_flatten_push(per_set(sets[index as int]));
        }
        col_types.append(&mut in_set);
        index += 1;
    }
    proof {
        assert(sets.take(index as int) =~= sets);
        lemma_column_types_of_sets(sets, type_list@);
    }
    Ok(col_types)
}

/// The columns of the table `csv`, dealt out in order over `max_threads`
/// workers.
///
/// Fails with [`Error::ThreadCount`] where `max_threads` is 0, and only then.
pub fn column_sets(csv: Vec<Vec<String>>, max_threads: usize) -> (dealt: Result<
    Vec<Vec<Vec<String>>>,
    Error,
>)
    ensures
        match dealt {
            Ok(col_sets) => max_threads >= 1 && col_sets.deep_view() == partition(
                columns(csv.deep_view()),
                max_threads as int,
            ),
            Err(e) => max_threads == 0 && e == Error::ThreadCount,
        },
{
    if max_threads == 0 {
        return Err(Error::ThreadCount);
    }
    let flipped_csv = flip_vec(csv.as_slice());
    let all_columns = flipped_csv.as_slice();
    let col_sets = split_vec_equal(all_columns, max_threads);
    proof {
        lemma_split_is_partition(all_columns, col_sets, max_threads);
    }
    Ok(col_sets)
}

/// For every column of the table `csv`, the types of `type_list` that fit
/// it, in the order of the registry. The columns are dealt out over
/// `max_threads` workers; how many there are does not change the answer.
///
/// Fails with [`Error::ThreadCount`] where `max_threads` is 0, and only then.
pub fn get_matching_types(csv: Vec<Vec<String>>, type_list: TypeList, max_threads: usize) -> (found:
    Result<Vec<Vec<Type>>, Error>)
    ensures
        match found {
            Ok(col_types) => max_threads >= 1 && col_types.deep_view() == column_types(
                columns(csv.deep_view()),
                type_list@,
            ),
            Err(e) => max_threads == 0 && e == Error::ThreadCount,
        },
{
    let col_sets = match column_sets(csv, max_threads) {
        Ok(col_sets) => col_sets,
        Err(e) => {
            return Err(e);
        },
    };
    proof {
        lemma_partition_flatten(columns(csv.deep_view()), max_threads as int);
    }
    search_types(col_sets, &type_list)
}

} // verus!
