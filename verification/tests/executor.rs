use csvtypes::assert_matching_rows::{deal_out, ColumnSet};
use csvtypes::executor::gather;
use csvtypes::matching_types::column_sets;
use csvtypes::types::Type;
use csvtypes::{Error, Options};

fn rows(table: &[&[&str]]) -> Vec<Vec<String>> {
    table.iter().map(|row| row.iter().map(|cell| cell.to_string()).collect()).collect()
}

#[test]
fn gather_puts_the_answers_end_to_end_in_order() {
    let answers = vec![Some(vec![3, 1]), Some(vec![]), Some(vec![2]), Some(vec![9, 9])];
    assert_eq!(Ok(vec![3, 1, 2, 9, 9]), gather(answers));
    assert_eq!(Ok(Vec::<u8>::new()), gather(Vec::new()));
    assert_eq!(Ok(Vec::<u8>::new()), gather(vec![Some(vec![]), Some(vec![])]));
}

#[test]
fn gather_returns_nothing_when_a_worker_failed() {
    assert_eq!(Err(Error::Join), gather(vec![Some(vec![1]), None, Some(vec![2])]));
    assert_eq!(Err(Error::Join), gather(vec![None::<Vec<u8>>]));
    assert_eq!(Err(Error::Join), gather(vec![Some(vec![1]), Some(vec![2]), None]));
}

#[test]
fn worker_count_is_one_unless_told() {
    assert_eq!(Ok(1), Options { has_headers: false, max_threads: None }.worker_count());
    assert_eq!(Ok(1), Options { has_headers: true, max_threads: Some(1) }.worker_count());
    assert_eq!(Ok(64), Options { has_headers: false, max_threads: Some(64) }.worker_count());
    assert_eq!(
        Err(Error::ThreadCount),
        Options { has_headers: false, max_threads: Some(0) }.worker_count()
    );
}

#[test]
fn column_sets_deals_the_columns_out() {
    let table = rows(&[&["a1", "b1", "c1", "d1", "e1"], &["a2", "b2", "c2"]]);
    assert_eq!(
        Ok(vec![
            rows(&[&["a1", "a2"], &["b1", "b2"], &["c1", "c2"]]),
            rows(&[&["d1"], &["e1"]]),
        ]),
        column_sets(table.clone(), 2)
    );
    assert_eq!(
        Ok(vec![rows(&[&["a1", "a2"], &["b1", "b2"], &["c1", "c2"], &["d1"], &["e1"]])]),
        column_sets(table.clone(), 1)
    );
    assert_eq!(Err(Error::ThreadCount), column_sets(table, 0));
}

#[test]
fn deal_out_gives_every_worker_its_columns_types_and_offset() {
    let table = rows(&[&["1", "x", "3", "y", "5"]]);
    let int = || Type::new("int", r"\d");
    let word = || Type::new("word", "[a-z]");
    let expected = vec![int(), word(), int(), int(), word()];
    let sets = deal_out(table, &expected, 3).unwrap();
    assert_eq!(3, sets.len());
    assert_eq!(rows(&[&["1"], &["x"]]), sets[0].columns);
    assert_eq!(vec![int(), word()], sets[0].expected_types);
    assert_eq!(0, sets[0].offset);
    assert_eq!(rows(&[&["3"], &["y"]]), sets[1].columns);
    assert_eq!(vec![int(), int()], sets[1].expected_types);
    assert_eq!(2, sets[1].offset);
    assert_eq!(rows(&[&["5"]]), sets[2].columns);
    assert_eq!(vec![word()], sets[2].expected_types);
    assert_eq!(4, sets[2].offset);
    assert_eq!(Vec::<(usize, usize)>::new(), sets[0].check());
    assert_eq!(vec![(0, 3)], sets[1].check());
    assert_eq!(vec![(0, 4)], sets[2].check());
}

#[test]
fn deal_out_refuses_before_any_work() {
    let table = rows(&[&["1", "2"]]);
    let int = || Type::new("int", r"\d");
    assert!(matches!(deal_out(table.clone(), &[int()], 2), Err(Error::ColumnCountNotMatching)));
    assert!(matches!(deal_out(table.clone(), &[int()], 0), Err(Error::ThreadCount)));
    assert!(matches!(deal_out(table, &[int(), int()], 0), Err(Error::ThreadCount)));
}

#[test]
fn a_share_reports_cells_by_their_place_in_the_table() {
    let set = ColumnSet {
        columns: rows(&[&["a", "1"], &["2", "b"]]),
        expected_types: vec![Type::new("int", r"\d"), Type::new("int", r"\d")],
        offset: 7,
    };
    assert_eq!(vec![(0, 7), (1, 8)], set.check());
}

#[test]
fn errors_say_what_went_wrong() {
    assert_eq!("Column count not matching", Error::ColumnCountNotMatching.message());
    assert_eq!("Could not join threads", Error::Join.message());
    assert_eq!("Thread smaller then one", Error::ThreadCount.message());
    assert_eq!("Pattern does not compile", Error::Compile.message());
    assert_eq!("Type not defined", Error::UndefinedType.message());
}
