use csvtypes::print_result::{
    assert_types, failed_assertion_line, failed_assertion_lines, matching_types,
    matching_types_human_readable, matching_types_line, matching_types_machine_readable,
    push_decimal,
};
use csvtypes::types::Type;

fn named(names: &[&str]) -> Vec<Type> {
    names.iter().map(|name| Type::new(name, ".*")).collect()
}

#[test]
fn push_decimal_writes_digits() {
    for number in [0usize, 7, 9, 10, 11, 99, 100, 101, 4096, 1234567890, usize::MAX] {
        let mut line = String::from("n=");
        push_decimal(&mut line, number);
        assert_eq!(format!("n={}", number), line);
    }
}

#[test]
fn failed_assertion_line_joins_with_colons() {
    assert_eq!("3:0:12:7", failed_assertion_line(3, &[0, 12, 7]));
    assert_eq!("10", failed_assertion_line(10, &[]));
    assert_eq!("0:0", failed_assertion_line(0, &[0]));
}

#[test]
fn failed_assertion_lines_one_for_each_record() {
    let rows = vec![(1, vec![0]), (0, vec![1, 2]), (1, vec![5])];
    assert_eq!(vec!["1:0", "0:1:2", "1:5"], failed_assertion_lines(&rows));
}

#[test]
fn assert_types_for_a_person() {
    let rows = vec![(1, vec![0]), (20, vec![1, 2])];
    let printout = assert_types(&rows, false);
    assert_eq!(vec!["These rows did not match: "], printout.stderr);
    assert_eq!(vec!["1:0", "20:1:2"], printout.stdout);
    let printout = assert_types(&[], false);
    assert_eq!(vec!["All rows matched"], printout.stderr);
    assert_eq!(Vec::<String>::new(), printout.stdout);
}

#[test]
fn assert_types_for_a_program() {
    let rows = vec![(1, vec![0]), (20, vec![1, 2])];
    let printout = assert_types(&rows, true);
    assert_eq!(Vec::<String>::new(), printout.stderr);
    assert_eq!(vec!["1:0", "20:1:2"], printout.stdout);
    let printout = assert_types(&[], true);
    assert_eq!(Vec::<String>::new(), printout.stderr);
    assert_eq!(Vec::<String>::new(), printout.stdout);
}

#[test]
fn matching_types_line_puts_a_comma_behind_every_name() {
    assert_eq!("string,int,", matching_types_line(&named(&["string", "int"])));
    assert_eq!("", matching_types_line(&[]));
}

#[test]
fn matching_types_for_a_program() {
    let types = vec![named(&["string", "int"]), named(&[]), named(&["string"])];
    assert_eq!(vec!["string,int,", "", "string,"], matching_types_machine_readable(&types));
    let printout = matching_types(&types, &["too".to_owned()], true);
    assert_eq!(Vec::<String>::new(), printout.stderr);
    assert_eq!(vec!["string,int,", "", "string,"], printout.stdout);
}

#[test]
fn matching_types_for_a_person_without_headers() {
    let types = vec![named(&["string", "int"]), named(&[]), named(&["float"])];
    let expected = vec![
        format!("| {:>6} | {:>0} | {:>5} |", "string", "", "float"),
        format!("| {:>6} | {:>0} | {:>5} |", "int", "", ""),
    ];
    assert_eq!(expected, matching_types_human_readable(&types, &[]));
    assert_eq!(vec!["| string |  | float |", "|    int |  |       |"], expected);
}

#[test]
fn matching_types_for_a_person_with_headers() {
    let types = vec![named(&["string", "int"]), named(&["string"]), named(&[])];
    let headers = vec!["id".to_owned(), "a long header".to_owned()];
    let expected = vec![
        "|     id | a long header |",
        "==========================",
        "| string |        string |  |",
        "|    int |               |  |",
    ];
    assert_eq!(expected, matching_types_human_readable(&types, &headers));
    let printout = matching_types(&types, &headers, false);
    assert_eq!(Vec::<String>::new(), printout.stderr);
    assert_eq!(expected, printout.stdout);
}

#[test]
fn matching_types_for_a_person_measures_in_bytes_and_pads_in_characters() {
    let types = vec![named(&["\u{e9}t\u{e9}", "x"])];
    let headers = vec!["h".to_owned()];
    let expected = vec![
        format!("| {:>5} |", "h"),
        "=".repeat(9),
        format!("| {:>5} |", "\u{e9}t\u{e9}"),
        format!("| {:>5} |", "x"),
    ];
    assert_eq!(expected, matching_types_human_readable(&types, &headers));
    assert_eq!("|   \u{e9}t\u{e9} |", expected[2]);
}

#[test]
fn matching_types_for_a_person_of_nothing() {
    assert_eq!(Vec::<String>::new(), matching_types_human_readable(&[], &[]));
    assert_eq!(Vec::<String>::new(), matching_types_human_readable(&[vec![], vec![]], &[]));
}
