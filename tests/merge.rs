use clap_serde::cli::{from_args, from_options, merge_options, parse_options};
use clap_serde::schema::{blank_options, defaults, FieldSpec, LeafSpec, Value};
use clap_serde::{update, ClapSerde, Node, OptNode};

fn leaf(id: &str, short: Option<char>, takes_value: bool) -> FieldSpec {
    FieldSpec::Leaf(LeafSpec {
        id: id.to_string(),
        short,
        long: Some(id.replace('_', "-")),
        takes_value,
    })
}

/// verbose flag, a nested group with a name option and a debug flag, and a
/// level option.
fn schema() -> FieldSpec {
    FieldSpec::Nested(vec![
        leaf("verbose", Some('v'), false),
        FieldSpec::Nested(vec![leaf("name", Some('n'), true), leaf("debug", Some('d'), false)]),
        leaf("level", None, true),
    ])
}

fn text(s: &str) -> Value {
    Value::Text(s.to_string())
}

fn base() -> Node<Value> {
    Node::Group(vec![
        Node::Leaf(Value::Flag(false)),
        Node::Group(vec![Node::Leaf(text("alpha")), Node::Leaf(Value::Flag(true))]),
        Node::Leaf(text("3")),
    ])
}

fn opts(verbose: Option<Value>, name: Option<Value>, debug: Option<Value>, level: Option<Value>) -> OptNode<Value> {
    OptNode::Group(vec![
        OptNode::Leaf(verbose),
        OptNode::Group(vec![OptNode::Leaf(name), OptNode::Leaf(debug)]),
        OptNode::Leaf(level),
    ])
}

fn args(t: &[&str]) -> Vec<String> {
    t.iter().map(|s| s.to_string()).collect()
}

#[test]
fn merging_all_absent_keeps_base() {
    let s = schema();
    assert_eq!(merge_options(&s, base(), blank_options(&s)), base());
    assert_eq!(base().merge(opts(None, None, None, None)), base());
}

#[test]
fn present_leaf_overrides_only_itself() {
    let r = base().merge(opts(Some(Value::Flag(true)), None, None, None));
    assert_eq!(
        r,
        Node::Group(vec![
            Node::Leaf(Value::Flag(true)),
            Node::Group(vec![Node::Leaf(text("alpha")), Node::Leaf(Value::Flag(true))]),
            Node::Leaf(text("3")),
        ])
    );
}

#[test]
fn nested_leaf_overrides_only_itself() {
    let r = base().merge(opts(None, Some(text("beta")), None, None));
    assert_eq!(
        r,
        Node::Group(vec![
            Node::Leaf(Value::Flag(false)),
            Node::Group(vec![Node::Leaf(text("beta")), Node::Leaf(Value::Flag(true))]),
            Node::Leaf(text("3")),
        ])
    );
}

#[test]
fn later_source_wins() {
    let first = opts(Some(Value::Flag(true)), Some(text("file")), None, Some(text("7")));
    let second = opts(None, Some(text("cli")), Some(Value::Flag(false)), None);
    let twice = base().merge(first).merge(second);
    let layered = opts(Some(Value::Flag(true)), Some(text("cli")), Some(Value::Flag(false)), Some(text("7")));
    assert_eq!(twice, base().merge(layered));
    assert_eq!(
        twice,
        Node::Group(vec![
            Node::Leaf(Value::Flag(true)),
            Node::Group(vec![Node::Leaf(text("cli")), Node::Leaf(Value::Flag(false))]),
            Node::Leaf(text("7")),
        ])
    );
}

#[test]
fn update_in_place() {
    let mut b = base();
    update(&mut b, opts(None, None, None, Some(text("9"))));
    let mut c = base();
    c.update(opts(None, None, None, Some(text("9"))));
    assert_eq!(b, c);
    assert_eq!(
        b,
        Node::Group(vec![
            Node::Leaf(Value::Flag(false)),
            Node::Group(vec![Node::Leaf(text("alpha")), Node::Leaf(Value::Flag(true))]),
            Node::Leaf(text("9")),
        ])
    );
}

#[test]
fn defaults_of_schema() {
    assert_eq!(
        defaults(&schema()),
        Node::Group(vec![
            Node::Leaf(Value::Flag(false)),
            Node::Group(vec![Node::Leaf(text("")), Node::Leaf(Value::Flag(false))]),
            Node::Leaf(text("")),
        ])
    );
}

#[test]
fn empty_command_line_gives_complete_blank_mirror() {
    let s = schema();
    let o = parse_options(&s, &"app".to_string(), &args(&["app"])).unwrap();
    assert_eq!(o, blank_options(&s));
    assert_eq!(o, opts(None, None, None, None));
    assert_eq!(merge_options(&s, base(), o), base());
}

#[test]
fn nested_arguments_are_flattened() {
    let s = schema();
    let o = parse_options(&s, &"app".to_string(), &args(&["app", "-n", "gamma", "--level", "5", "-d"])).unwrap();
    assert_eq!(o, opts(None, Some(text("gamma")), Some(Value::Flag(true)), Some(text("5"))));
}

#[test]
fn from_args_merges_onto_defaults() {
    let s = schema();
    let r = from_args(&s, &"app".to_string(), &args(&["app", "-v", "--name", "delta"])).unwrap();
    assert_eq!(
        r,
        Node::Group(vec![
            Node::Leaf(Value::Flag(true)),
            Node::Group(vec![Node::Leaf(text("delta")), Node::Leaf(Value::Flag(false))]),
            Node::Leaf(text("")),
        ])
    );
    assert_eq!(from_options(&s, blank_options(&s)), defaults(&s));
}

#[test]
fn missing_option_value_is_reported() {
    let s = schema();
    let e = from_args(&s, &"app".to_string(), &args(&["app", "--level"])).unwrap_err();
    assert_eq!(e.exit_code, 2);
}

#[test]
fn shape_checks() {
    let s = schema();
    assert!(clap_serde::schema::check_conforms(&s, &base()));
    assert!(clap_serde::schema::check_conforms(&s, &defaults(&s)));
    assert!(!clap_serde::schema::check_conforms(&s, &Node::Group(vec![])));
    let wrong_kind = Node::Group(vec![
        Node::Leaf(text("yes")),
        Node::Group(vec![Node::Leaf(text("alpha")), Node::Leaf(Value::Flag(true))]),
        Node::Leaf(text("3")),
    ]);
    assert!(!clap_serde::schema::check_conforms(&s, &wrong_kind));
    assert!(clap_serde::schema::check_mirrors(&s, &opts(None, Some(text("x")), None, None)));
    assert!(!clap_serde::schema::check_mirrors(&s, &opts(None, Some(Value::Flag(true)), None, None)));
    assert!(!clap_serde::schema::check_mirrors(&s, &OptNode::Leaf(None)));
}

#[test]
fn repeated_parse_agrees_with_from_args() {
    let s = schema();
    let a = args(&["app", "-d", "--level", "2"]);
    let o = parse_options(&s, &"app".to_string(), &a).unwrap();
    let r = from_args(&s, &"app".to_string(), &a).unwrap();
    assert_eq!(r, merge_options(&s, defaults(&s), o));
    assert_eq!(r, from_args(&s, &"app".to_string(), &a).unwrap());
}
