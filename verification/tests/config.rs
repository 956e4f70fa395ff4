use csvtypes::config::{default_config, get_config, parse_config, ConfigFileType};
use csvtypes::types::{check_if_type_matches, Type, TypeList};
use csvtypes::Error;

const FILE: &str = "int \\d+\nfloat \\d+.\\d+\nbool [yn]\n";

#[test]
fn config_get_default_config() {
    assert_eq!(
        TypeList::from(default_config().unwrap()).get_types_vec(),
        get_config(ConfigFileType::Defaults).unwrap().get_types_vec()
    );
}

#[test]
fn main_get_default_config() {
    assert_eq!(
        TypeList::from(default_config().unwrap()).get_types_vec(),
        get_config(ConfigFileType::Defaults).unwrap().get_types_vec()
    );
}

#[test]
fn config_get_file_config() {
    let types = TypeList::from(vec![
        Type::new("int", r"\d+"),
        Type::new("float", r"\d+.\d+"),
        Type::new("bool", "[yn]"),
    ]);
    assert_eq!(
        types.get_types_vec(),
        get_config(ConfigFileType::ReplaceDefault(String::from(FILE))).unwrap().get_types_vec()
    );
}

#[test]
fn main_get_file_config() {
    let types = TypeList::from(vec![
        Type::new("int", r"\d+"),
        Type::new("float", r"\d+.\d+"),
        Type::new("bool", "[yn]"),
    ]);
    assert_eq!(
        types.get_types_vec(),
        get_config(ConfigFileType::ReplaceDefault(String::from(FILE))).unwrap().get_types_vec()
    );
    assert_eq!(r"^\d+$", types.get_types_vec()[0].pattern());
    assert_eq!(r"^\d+.\d+$", types.get_types_vec()[1].pattern());
    assert_eq!("^[yn]$", types.get_types_vec()[2].pattern());
}

#[test]
fn config_get_file_config_merge() {
    let types = TypeList::from(vec![
        Type::new("string", ".*"),
        Type::new("int", r"\d+"),
        Type::new("float", r"\d+.\d+"),
        Type::new("bool", "[yn]"),
    ]);
    assert_eq!(
        types.get_types_vec(),
        get_config(ConfigFileType::Append(String::from(FILE))).unwrap().get_types_vec()
    );
}

#[test]
fn main_get_file_config_merge() {
    let types = TypeList::from(vec![
        Type::new("string", ".*"),
        Type::new("int", r"\d+"),
        Type::new("float", r"\d+.\d+"),
        Type::new("bool", "[yn]"),
    ]);
    assert_eq!(
        types.get_types_vec(),
        get_config(ConfigFileType::Append(String::from(FILE))).unwrap().get_types_vec()
    );
}

#[test]
fn default_config_holds_the_built_in_types() {
    let expected = vec![
        Type::new("string", ".*"),
        Type::new("float", r"[-+]?(?:(?:\d+(?:\.\d*)?)|\.\d+)"),
        Type::new("int", r"[-+]?\d+"),
    ];
    assert_eq!(Ok(expected), default_config());
}

#[test]
fn built_in_types_fit_what_they_are_for() {
    let types = default_config().unwrap();
    let (string, float, int) = (&types[0], &types[1], &types[2]);
    for value in ["", "abc", "1", "-1.5", " "] {
        assert!(check_if_type_matches(value, string));
    }
    for value in ["1", "-1", "+1", "1.", "1.5", "-.5", "+12.25"] {
        assert!(check_if_type_matches(value, float));
    }
    for value in ["", ".", "-", "1.5.2", "a", "1e5", " 1"] {
        assert!(!check_if_type_matches(value, float));
    }
    for value in ["1", "-1", "+1", "0012"] {
        assert!(check_if_type_matches(value, int));
    }
    for value in ["", "-", "1.", "1.5", "a", "1 "] {
        assert!(!check_if_type_matches(value, int));
    }
}

#[test]
fn parse_config_reads_a_type_from_each_line_with_a_space() {
    let expected = vec![
        Type::new("a", "x y"),
        Type::new("", "b"),
        Type::new("c", ""),
        Type::new("d", " e"),
    ];
    assert_eq!(Ok(expected), parse_config("a x y\nnothing\n\n b\nc \nd  e"));
}

#[test]
fn parse_config_of_nothing() {
    assert_eq!(Ok(Vec::new()), parse_config(""));
    assert_eq!(Ok(Vec::new()), parse_config("\n\n"));
    assert_eq!(Ok(Vec::new()), parse_config("word"));
}

#[test]
fn parse_config_reports_a_pattern_that_does_not_compile() {
    assert_eq!(Err(Error::Compile), parse_config("a (\nb b"));
    assert_eq!(Err(Error::Compile), parse_config("a a\nb b\nc a{2,1}"));
    assert_eq!(Err(Error::Compile), parse_config("a a\nb [\nc c"));
}

#[test]
fn get_config_reports_a_pattern_that_does_not_compile() {
    let broken = || String::from("int \\d+\nbroken (x");
    assert!(matches!(get_config(ConfigFileType::Append(broken())), Err(Error::Compile)));
    assert!(matches!(get_config(ConfigFileType::ReplaceDefault(broken())), Err(Error::Compile)));
}
