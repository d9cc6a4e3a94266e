use clap_serde::cli::{merge_options, parse_options, CliError};
use clap_serde::schema::{FieldSpec, LeafSpec, Value};
use clap_serde::{Node, OptNode};

fn config() -> FieldSpec {
    FieldSpec::Nested(vec![FieldSpec::Leaf(LeafSpec {
        id: "test_flag".to_string(),
        short: Some('t'),
        long: Some("test-flag".to_string()),
        takes_value: false,
    })])
}

fn args_schema() -> FieldSpec {
    FieldSpec::Nested(vec![config()])
}

fn tokens(t: &[&str]) -> Vec<String> {
    t.iter().map(|s| s.to_string()).collect()
}

fn test_flag(o: &OptNode<Value>) -> Option<Value> {
    match o {
        OptNode::Group(outer) => match &outer[0] {
            OptNode::Group(inner) => match &inner[0] {
                OptNode::Leaf(Some(Value::Flag(b))) => Some(Value::Flag(*b)),
                OptNode::Leaf(Some(Value::Text(t))) => Some(Value::Text(t.clone())),
                OptNode::Leaf(None) => None,
                OptNode::Group(_) => panic!("leaf expected"),
            },
            OptNode::Leaf(_) => panic!("group expected"),
        },
        OptNode::Leaf(_) => panic!("group expected"),
    }
}

#[test]
fn bool_present() -> Result<(), CliError> {
    let res = parse_options(&args_schema(), &"cmd".to_string(), &tokens(&["cmd", "-t"]));
    assert_eq!(test_flag(&res?), Some(Value::Flag(true)));
    Ok(())
}

#[test]
fn bool_absent() -> Result<(), CliError> {
    let res = parse_options(&args_schema(), &"cmd".to_string(), &tokens(&["cmd"]));
    assert_eq!(test_flag(&res?), None);
    Ok(())
}

#[test]
fn bool_long_spelling() {
    let res = parse_options(&args_schema(), &"cmd".to_string(), &tokens(&["cmd", "--test-flag"]));
    assert_eq!(test_flag(&res.unwrap()), Some(Value::Flag(true)));
}

#[test]
fn unknown_argument_is_reported() {
    let res = parse_options(&args_schema(), &"cmd".to_string(), &tokens(&["cmd", "-x"]));
    let e = res.unwrap_err();
    assert_eq!(e.kind, clap::error::ErrorKind::UnknownArgument);
    assert_eq!(e.exit_code, 2);
    assert!(!e.message.is_empty());
}

#[test]
fn help_is_reported_with_success_code() {
    let res = parse_options(&args_schema(), &"cmd".to_string(), &tokens(&["cmd", "--help"]));
    let e = res.unwrap_err();
    assert_eq!(e.kind, clap::error::ErrorKind::DisplayHelp);
    assert_eq!(e.exit_code, 0);
}

#[test]
fn bool_merged_onto_defaults() {
    let s = args_schema();
    let present = parse_options(&s, &"cmd".to_string(), &tokens(&["cmd", "-t"])).unwrap();
    let absent = parse_options(&s, &"cmd".to_string(), &tokens(&["cmd"])).unwrap();
    let holding = |b: bool| Node::Group(vec![Node::Group(vec![Node::Leaf(Value::Flag(b))])]);
    assert_eq!(merge_options(&s, holding(false), present), holding(true));
    assert_eq!(merge_options(&s, holding(false), absent), holding(false));
    let absent = parse_options(&s, &"cmd".to_string(), &tokens(&["cmd"])).unwrap();
    assert_eq!(merge_options(&s, holding(true), absent), holding(true));
}
