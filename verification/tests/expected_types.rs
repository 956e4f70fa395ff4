use csvtypes::expected_types::{expected_types, resolve_types, split_names};
use csvtypes::types::{Type, TypeList};
use csvtypes::Error;

fn registry() -> TypeList {
    TypeList::from(vec![
        Type::new("string", ".*"),
        Type::new("int", r"\d+"),
        Type::new("two words", "a"),
        Type::new("", "b"),
    ])
}

#[test]
fn split_names_cuts_at_commas_and_trims() {
    assert_eq!(vec!["int", "string", "two words"], split_names(" int,string ,\ttwo words\n"));
    assert_eq!(vec!["", "", ""], split_names(", \u{a0} ,"));
    assert_eq!(vec![""], split_names(""));
    assert_eq!(vec!["a b"], split_names("\u{2003}a b\u{3000}"));
}

#[test]
fn expected_types_looks_every_name_up() {
    assert_eq!(
        Ok(vec![Type::new("int", r"\d+"), Type::new("string", ".*"), Type::new("int", r"\d+")]),
        expected_types(&registry(), "int, string,int")
    );
    assert_eq!(
        Ok(vec![Type::new("two words", "a"), Type::new("", "b")]),
        expected_types(&registry(), "two words,")
    );
}

#[test]
fn expected_types_reports_a_name_that_is_not_registered() {
    assert_eq!(Err(Error::UndefinedType), expected_types(&registry(), "int,float"));
    assert_eq!(Err(Error::UndefinedType), expected_types(&registry(), "INT"));
    assert_eq!(Err(Error::UndefinedType), expected_types(&TypeList::new(), ""));
}

#[test]
fn resolve_types_takes_names_as_they_are() {
    assert_eq!(
        Ok(vec![Type::new("string", ".*")]),
        resolve_types(&registry(), &["string".to_owned()])
    );
    assert_eq!(Err(Error::UndefinedType), resolve_types(&registry(), &[" string".to_owned()]));
    assert_eq!(Ok(Vec::new()), resolve_types(&registry(), &[]));
}

#[test]
fn resolve_types_finds_the_type_registered_last() {
    let mut types = registry();
    types.add_type(Type::new("int", r"-?\d+"));
    assert_eq!(
        Ok(vec![Type::new("int", r"-?\d+")]),
        resolve_types(&types, &["int".to_owned()])
    );
}
