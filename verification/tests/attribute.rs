use anchor_yard::{extract_component_types, ArgToken, ArgsError, SnapshotArgs, TaskParam};

fn ident(name: &str) -> ArgToken {
    ArgToken::Ident(name.to_string())
}

fn param(type_ident: Option<&str>, first_type_argument: Option<&str>) -> TaskParam {
    TaskParam {
        type_ident: type_ident.map(str::to_string),
        first_type_argument: first_type_argument.map(str::to_string),
    }
}

#[test]
fn no_arguments_give_the_default_threshold() {
    assert_eq!(SnapshotArgs::parse(&vec![]), Ok(SnapshotArgs { threshold_ms: 1 }));
}

#[test]
fn threshold_is_read_from_its_option() {
    let tokens = vec![ident("threshold_ms"), ArgToken::Equals, ArgToken::Integer(Some(10))];
    assert_eq!(SnapshotArgs::parse(&tokens), Ok(SnapshotArgs { threshold_ms: 10 }));
    let tokens = vec![ident("threshold_ms"), ArgToken::Equals, ArgToken::Integer(Some(0))];
    assert_eq!(SnapshotArgs::parse(&tokens), Ok(SnapshotArgs { threshold_ms: 0 }));
    let tokens = vec![ident("threshold_ms"), ArgToken::Equals, ArgToken::Integer(Some(u64::MAX))];
    assert_eq!(SnapshotArgs::parse(&tokens), Ok(SnapshotArgs { threshold_ms: u64::MAX }));
}

#[test]
fn another_identifier_leaves_the_default() {
    assert_eq!(
        SnapshotArgs::parse(&vec![ident("threshold")]),
        Ok(SnapshotArgs { threshold_ms: 1 })
    );
}

#[test]
fn arguments_must_start_with_an_identifier() {
    assert_eq!(SnapshotArgs::parse(&vec![ArgToken::Equals]), Err(ArgsError::ExpectedIdent));
    assert_eq!(
        SnapshotArgs::parse(&vec![ArgToken::Integer(Some(10))]),
        Err(ArgsError::ExpectedIdent)
    );
    assert_eq!(SnapshotArgs::parse(&vec![ArgToken::Other]), Err(ArgsError::ExpectedIdent));
}

#[test]
fn threshold_needs_equals_and_integer() {
    assert_eq!(
        SnapshotArgs::parse(&vec![ident("threshold_ms")]),
        Err(ArgsError::ExpectedEquals)
    );
    assert_eq!(
        SnapshotArgs::parse(&vec![ident("threshold_ms"), ArgToken::Integer(Some(3))]),
        Err(ArgsError::ExpectedEquals)
    );
    assert_eq!(
        SnapshotArgs::parse(&vec![ident("threshold_ms"), ArgToken::Equals]),
        Err(ArgsError::ExpectedInteger)
    );
    assert_eq!(
        SnapshotArgs::parse(&vec![ident("threshold_ms"), ArgToken::Equals, ident("ten")]),
        Err(ArgsError::ExpectedInteger)
    );
    assert_eq!(
        SnapshotArgs::parse(&vec![ident("threshold_ms"), ArgToken::Equals, ArgToken::Other]),
        Err(ArgsError::ExpectedInteger)
    );
}

#[test]
fn threshold_beyond_64_bits_is_refused() {
    let tokens = vec![ident("threshold_ms"), ArgToken::Equals, ArgToken::Integer(None)];
    assert_eq!(SnapshotArgs::parse(&tokens), Err(ArgsError::IntegerTooLarge));
}

#[test]
fn tokens_behind_the_arguments_are_refused() {
    let tokens = vec![
        ident("threshold_ms"),
        ArgToken::Equals,
        ArgToken::Integer(Some(10)),
        ArgToken::Other,
    ];
    assert_eq!(SnapshotArgs::parse(&tokens), Err(ArgsError::UnexpectedToken));
    let tokens = vec![ident("limit"), ArgToken::Equals, ArgToken::Integer(Some(10))];
    assert_eq!(SnapshotArgs::parse(&tokens), Err(ArgsError::UnexpectedToken));
}

#[test]
fn component_types_are_the_arguments_of_views() {
    let params = vec![
        param(Some("ViewMut"), Some("Position")),
        param(Some("View"), Some("Velocity")),
    ];
    assert_eq!(extract_component_types(&params), vec!["Position", "Velocity"]);
}

#[test]
fn parameters_that_are_no_views_are_passed_over() {
    let params = vec![
        param(None, None),
        param(Some("UniqueView"), Some("Clock")),
        param(Some("View"), None),
        param(None, Some("Health")),
        param(Some("view"), Some("Health")),
        param(Some("View"), Some("health::Health")),
        param(Some("EntitiesView"), None),
        param(Some("ViewMut"), Some("Position")),
        param(Some("View"), Some("Position")),
    ];
    assert_eq!(
        extract_component_types(&params),
        vec!["health::Health", "Position", "Position"]
    );
    assert_eq!(extract_component_types(&vec![]), Vec::<String>::new());
}
