use csvtypes::matching_types::{get_matching_types, search_col_set, search_types};
use csvtypes::types::{Type, TypeList};
use csvtypes::{get_types, CsvInput, Error, Options};

fn rows(table: &[&[&str]]) -> Vec<Vec<String>> {
    table.iter().map(|row| row.iter().map(|cell| cell.to_string()).collect()).collect()
}

fn names(found: Vec<Vec<Type>>) -> Vec<Vec<String>> {
    found
        .into_iter()
        .map(|col| col.into_iter().map(|ty| ty.name().to_owned()).collect::<Vec<_>>())
        .collect::<Vec<_>>()
}

#[test]
fn lib_get_types_get_types() {
    let type1 = Type::new("T1", "^1$");
    let type2 = Type::new("T2", "^2$");
    let typed = Type::new("Td", r"^\d$");
    let types = TypeList::from(vec![type1.clone(), type2.clone(), typed.clone()]);
    let ret = match get_types(
        CsvInput::Csv("1,2,2,1\n2,2,1,1\n3,2,2,1"),
        types,
        Options { has_headers: false, max_threads: Some(1) },
    ) {
        Ok(e) => e,
        Err(_) => {
            assert!(false);
            return;
        }
    };
    let expected = (
        vec![],
        vec![
            vec![typed.clone()],
            vec![type2.clone(), typed.clone()],
            vec![typed.clone()],
            vec![type1.clone(), typed.clone()],
        ],
    );
    assert_eq!(expected, ret);
    let expected = vec![
        vec![typed.name().to_owned()],
        vec![type2.name().to_owned(), typed.name().to_owned()],
        vec![typed.name().to_owned()],
        vec![type1.name().to_owned(), typed.name().to_owned()],
    ];
    assert_eq!(expected, names(ret.1));
}

#[test]
fn lib_get_types_get_types_multi_threads() {
    let type1 = Type::new("T1", "^1$");
    let type2 = Type::new("T2", "^2$");
    let typed = Type::new("Td", r"^\d$");
    let types = TypeList::from(vec![type1.clone(), type2.clone(), typed.clone()]);
    let ret = match get_types(
        CsvInput::Csv("1,2,2,1\n2,2,1,1\n3,2,2,1"),
        types,
        Options { has_headers: false, max_threads: Some(2) },
    ) {
        Ok(e) => e,
        Err(_) => {
            assert!(false);
            return;
        }
    };
    let expected = (
        vec![],
        vec![
            vec![typed.clone()],
            vec![type2.clone(), typed.clone()],
            vec![typed.clone()],
            vec![type1.clone(), typed.clone()],
        ],
    );
    assert_eq!(expected, ret);
    let expected = vec![
        vec![typed.name().clone()],
        vec![type2.name().clone(), typed.name().clone()],
        vec![typed.name().clone()],
        vec![type1.name().clone(), typed.name().clone()],
    ];
    assert_eq!(expected, names(ret.1));
}

#[test]
fn lib_get_types_thread_count_error() {
    let type_def = Type::new("test", "^.*$");
    let types = TypeList::from(vec![type_def.clone()]);
    match get_types(
        CsvInput::Csv(""),
        types,
        Options { has_headers: false, max_threads: Some(0) },
    ) {
        Ok(_) => assert!(false),
        Err(e) => match e {
            Error::ThreadCount => assert!(true),
            _ => assert!(false),
        },
    };
}

#[test]
fn match_only_strings() {
    let types = vec![Type::new("str", ".*"), Type::new("num", r"\d*")];
    let csv = vec![vec![String::from("W"), String::from("r"), String::from("asd")]];
    let result = get_matching_types(csv, TypeList::from(types), 4).map(|r| {
        r.into_iter()
            .map(|col| col.into_iter().map(|ty| ty.name().to_owned()).collect::<Vec<_>>())
            .collect::<Vec<_>>()
    });
    assert_eq!(
        Ok(vec![vec!["str".to_owned()], vec!["str".to_owned()], vec!["str".to_owned()]]),
        result
    );
}

#[test]
fn matching_types_match_multiple_types() {
    let types = vec![Type::new("str", ".*"), Type::new("num", r"\d*")];
    let csv = vec![vec![String::from("W"), String::from("r"), String::from("3")]];
    let result = get_matching_types(csv, TypeList::from(types), 4).map(|r| {
        r.into_iter()
            .map(|col| col.into_iter().map(|ty| ty.name().to_owned()).collect::<Vec<_>>())
            .collect::<Vec<_>>()
    });
    assert_eq!(
        Ok(vec![
            vec!["str".to_owned()],
            vec!["str".to_owned()],
            vec!["str".to_owned(), "num".to_owned()]
        ]),
        result
    );
}

#[test]
fn get_matching_types_without_workers() {
    let types = TypeList::from(vec![Type::new("str", ".*")]);
    assert_eq!(Err(Error::ThreadCount), get_matching_types(rows(&[&["a"]]), types, 0));
}

#[test]
fn the_number_of_workers_does_not_change_the_answer() {
    let table = rows(&[
        &["1", "a", "1.5", "x", ""],
        &["22", "b", "2", "7"],
        &["333", "c", "0.25", "y", "", "extra"],
    ]);
    let registry = || {
        TypeList::from(vec![
            Type::new("string", ".*"),
            Type::new("float", r"[-+]?(?:(?:\d+(?:\.\d*)?)|\.\d+)"),
            Type::new("int", r"[-+]?\d+"),
        ])
    };
    let expected = vec![
        vec!["string".to_owned(), "float".to_owned(), "int".to_owned()],
        vec!["string".to_owned()],
        vec!["string".to_owned(), "float".to_owned()],
        vec!["string".to_owned()],
        vec!["string".to_owned()],
        vec!["string".to_owned()],
    ];
    for workers in 1..9 {
        let found = get_matching_types(table.clone(), registry(), workers);
        assert_eq!(Ok(expected.clone()), found.map(names));
    }
}

#[test]
fn get_types_sets_the_header_row_aside() {
    let registry = TypeList::from(vec![Type::new("string", ".*"), Type::new("int", r"\d+")]);
    let found = get_types(
        CsvInput::Csv("id,name\n1,x\n2,y"),
        registry,
        Options { has_headers: true, max_threads: None },
    );
    let (headers, types) = found.unwrap();
    assert_eq!(vec!["id".to_owned(), "name".to_owned()], headers);
    assert_eq!(
        vec![vec!["string".to_owned(), "int".to_owned()], vec!["string".to_owned()]],
        names(types)
    );
}

#[test]
fn get_types_of_rows_without_rows() {
    let registry = TypeList::from(vec![Type::new("string", ".*")]);
    let found = get_types(
        CsvInput::Rows(Vec::new()),
        registry,
        Options { has_headers: true, max_threads: Some(3) },
    );
    assert_eq!(Ok((Vec::<String>::new(), Vec::<Vec<Type>>::new())), found);
}

#[test]
fn get_types_with_other_separator() {
    let registry = TypeList::from(vec![Type::new("int", r"\d+")]);
    let found = get_types(
        CsvInput::Separated("1;2,3\n4;5", ';'),
        registry,
        Options { has_headers: false, max_threads: Some(2) },
    );
    assert_eq!(
        vec![vec!["int".to_owned()], Vec::<String>::new()],
        names(found.unwrap().1)
    );
}

#[test]
fn search_types_goes_through_the_sets_in_order() {
    let registry = TypeList::from(vec![Type::new("int", r"\d+"), Type::new("word", "[a-z]+")]);
    let col_sets = vec![
        vec![vec!["1".to_owned()], vec!["a".to_owned()]],
        vec![],
        vec![vec!["b".to_owned(), "2".to_owned()]],
    ];
    assert_eq!(
        Ok(vec![vec!["int".to_owned()], vec!["word".to_owned()], vec![]]),
        search_types(col_sets, &registry).map(names)
    );
}

#[test]
fn search_col_set_answers_column_by_column() {
    let types = vec![Type::new("int", r"\d+"), Type::new("word", "[a-z]+")];
    let col_set = vec![vec!["x".to_owned(), "y".to_owned()], vec![], vec!["1".to_owned()]];
    assert_eq!(
        vec![
            vec!["word".to_owned()],
            vec!["int".to_owned(), "word".to_owned()],
            vec!["int".to_owned()]
        ],
        names(search_col_set(&col_set, &types))
    );
}
