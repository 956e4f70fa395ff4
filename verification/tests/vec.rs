use csvtypes::vec::{csv_to_vec, flip_vec, group_offset, split_vec_equal};
use csvtypes::{get_header, split_header, CsvInput};

#[test]
fn get_header_success() {
    let mut input = vec![
        vec!["h1".to_owned(), "h2".to_owned()],
        vec!["v1".to_owned(), "v2".to_owned()],
    ];
    let h = get_header(&mut input);
    assert_eq!(vec!("h1".to_owned(), "h2".to_owned()), h);
    assert_eq!(vec!(vec!("v1".to_owned(), "v2".to_owned())), input);
}

#[test]
fn vec_parse_csv_one_line() {
    let expected = vec![vec!["v1".to_owned(), "v2".to_owned(), "v3".to_owned()]];
    let csv = csv_to_vec(CsvInput::Csv("v1,v2,v3"));
    assert_eq!(expected, csv);
}

#[test]
fn vec_parse_csv_multiple_lines() {
    let expected = vec![
        vec!["v4".to_owned(), "v34".to_owned(), "v7".to_owned()],
        vec!["v1".to_owned(), "v2".to_owned(), "v3".to_owned()],
    ];
    let csv = csv_to_vec(CsvInput::Csv("v4,v34,v7\nv1,v2,v3"));
    assert_eq!(expected, csv);
}

#[test]
fn csv_to_vec_other_inputs() {
    let expected = vec![vec!["v1".to_owned(), "v2,v3".to_owned()]];
    assert_eq!(expected, csv_to_vec(CsvInput::Separated("v1\tv2,v3", '\t')));
    assert_eq!(expected, csv_to_vec(CsvInput::Rows(expected.clone())));
}

#[test]
fn lib_flip_simple_vec() {
    let orig = vec![
        vec!["a1".to_owned(), "b1".to_owned()],
        vec!["a2".to_owned(), "b2".to_owned()],
    ];
    let result = vec![vec!["a1", "a2"], vec!["b1", "b2"]];
    assert_eq!(result, flip_vec(&orig));
}

#[test]
fn vec_flip_simple_vec() {
    let orig = vec![
        vec!["a1".to_owned(), "b1".to_owned()],
        vec!["a2".to_owned(), "b2".to_owned()],
    ];
    let result = vec![vec!["a1", "a2"], vec!["b1", "b2"]];
    assert_eq!(result, flip_vec(&orig));
}

#[test]
fn flip_ragged_rows_leaves_no_gaps() {
    let orig = vec![
        vec!["a1".to_owned()],
        vec!["a2".to_owned(), "b2".to_owned(), "c2".to_owned()],
        vec![],
        vec!["a4".to_owned(), "b4".to_owned()],
    ];
    let result = vec![vec!["a1", "a2", "a4"], vec!["b2", "b4"], vec!["c2"]];
    assert_eq!(result, flip_vec(&orig));
}

#[test]
fn flip_nothing() {
    let none: Vec<Vec<String>> = Vec::new();
    assert_eq!(none, flip_vec(&none));
    let empty_rows: Vec<Vec<String>> = vec![vec![], vec![]];
    assert_eq!(none, flip_vec(&empty_rows));
}

#[test]
fn lib_split_vec_equal_matching_threads() {
    let orig_vec = vec!["a", "b", "c", "d"];

    let result = split_vec_equal(&orig_vec, 4);
    let expected = vec![vec!["a"], vec!["b"], vec!["c"], vec!["d"]];
    assert_eq!(expected, result)
}

#[test]
fn lib_split_vec_equal_multiple_per_thread() {
    let orig_vec = vec!["a", "b", "c", "d"];

    let result = split_vec_equal(&orig_vec, 2);
    let expected = vec![vec!["a", "b"], vec!["c", "d"]];
    assert_eq!(expected, result);
}

#[test]
fn lib_split_vec_equal_count_not_matching() {
    let orig_vec = vec!["a", "b", "c"];

    let result = split_vec_equal(&orig_vec, 2);
    let expected = vec![vec!["a", "b"], vec!["c"]];
    assert_eq!(expected, result)
}

#[test]
fn lib_split_vec_equal_more_threads() {
    let orig_vec = vec!["a", "b", "c"];

    let result = split_vec_equal(&orig_vec, 4);
    let expected = vec![vec!["a"], vec!["b"], vec!["c"], vec![]];
    assert_eq!(expected, result)
}

#[test]
fn vec_split_vec_equal_matching_threads() {
    let orig_vec = vec!["a", "b", "c", "d"];

    let result = split_vec_equal(&orig_vec, 4);
    let expected = vec![vec!["a"], vec!["b"], vec!["c"], vec!["d"]];
    assert_eq!(expected, result)
}

#[test]
fn vec_split_vec_equal_multiple_per_thread() {
    let orig_vec = vec!["a", "b", "c", "d"];

    let result = split_vec_equal(&orig_vec, 2);
    let expected = vec![vec!["a", "b"], vec!["c", "d"]];
    assert_eq!(expected, result);
}

#[test]
fn vec_split_vec_equal_count_not_matching() {
    let orig_vec = vec!["a", "b", "c"];

    let result = split_vec_equal(&orig_vec, 2);
    let expected = vec![vec!["a", "b"], vec!["c"]];
    assert_eq!(expected, result)
}

#[test]
fn vec_split_vec_equal_more_threads() {
    let orig_vec = vec!["a", "b", "c"];

    let result = split_vec_equal(&orig_vec, 4);
    let expected = vec![vec!["a"], vec!["b"], vec!["c"], vec![]];
    assert_eq!(expected, result)
}

#[test]
fn split_seven_over_three() {
    let orig_vec = vec![1, 2, 3, 4, 5, 6, 7];
    let result = split_vec_equal(&orig_vec, 3);
    assert_eq!(vec![vec![1, 2, 3], vec![4, 5], vec![6, 7]], result);
    assert_eq!(orig_vec, result.concat());
}

#[test]
fn split_gives_the_items_back_in_order() {
    let orig_vec: Vec<u32> = (0..23).collect();
    for workers in 1..30 {
        let result = split_vec_equal(&orig_vec, workers);
        assert_eq!(workers, result.len());
        assert_eq!(orig_vec, result.concat());
        for i in 0..workers {
            let extra = if i < 23 % workers { 1 } else { 0 };
            assert_eq!(23 / workers + extra, result[i].len());
        }
    }
}

#[test]
fn split_nothing() {
    let none: Vec<u8> = Vec::new();
    let expected: Vec<Vec<u8>> = vec![vec![], vec![]];
    assert_eq!(expected, split_vec_equal(&none, 2));
}

#[test]
fn group_offset_is_where_the_groups_start() {
    assert_eq!(
        vec![0, 3, 5, 7],
        (0..4).map(|i| group_offset(7, 3, i)).collect::<Vec<usize>>()
    );
    assert_eq!(
        vec![0, 1, 2, 3, 3, 3],
        (0..6).map(|i| group_offset(3, 5, i)).collect::<Vec<usize>>()
    );
    for workers in 1..12 {
        let items: Vec<usize> = (0..40).collect();
        let groups = split_vec_equal(&items, workers);
        for (i, group) in groups.iter().enumerate() {
            assert!(group.iter().enumerate().all(|(j, item)| *item == group_offset(40, workers, i) + j));
        }
        assert_eq!(40, group_offset(40, workers, workers));
    }
}

#[test]
fn split_header_sets_the_first_row_aside() {
    let table = vec![vec!["h".to_owned()], vec!["v".to_owned()]];
    assert_eq!(
        (vec!["h".to_owned()], vec![vec!["v".to_owned()]]),
        split_header(table.clone(), true)
    );
    assert_eq!((Vec::<String>::new(), table.clone()), split_header(table, false));
    assert_eq!((Vec::<String>::new(), Vec::<Vec<String>>::new()), split_header(Vec::new(), true));
}
