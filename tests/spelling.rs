use clap_serde::schema::{check_spelling, FieldSpec, LeafSpec};

fn leaf(id: &str, short: Option<char>, long: Option<&str>) -> FieldSpec {
    FieldSpec::Leaf(LeafSpec {
        id: id.to_string(),
        short,
        long: long.map(|l| l.to_string()),
        takes_value: false,
    })
}

#[test]
fn distinct_spellings_are_accepted() {
    let s = FieldSpec::Nested(vec![
        leaf("a", Some('a'), Some("alpha")),
        FieldSpec::Nested(vec![leaf("b", Some('b'), None), leaf("c", None, Some("gamma"))]),
    ]);
    assert!(check_spelling(&s));
    assert!(check_spelling(&FieldSpec::Nested(vec![])));
}

#[test]
fn shared_short_in_nested_group_is_refused() {
    let s = FieldSpec::Nested(vec![
        leaf("a", Some('x'), None),
        FieldSpec::Nested(vec![leaf("b", Some('x'), None)]),
    ]);
    assert!(!check_spelling(&s));
}

#[test]
fn shared_identifier_is_refused() {
    let s = FieldSpec::Nested(vec![leaf("a", None, None), leaf("a", None, Some("other"))]);
    assert!(!check_spelling(&s));
}

#[test]
fn shared_long_is_refused() {
    let s = FieldSpec::Nested(vec![leaf("a", None, Some("same")), leaf("b", None, Some("same"))]);
    assert!(!check_spelling(&s));
}

#[test]
fn reserved_and_malformed_spellings_are_refused() {
    assert!(!check_spelling(&leaf("a", Some('h'), None)));
    assert!(!check_spelling(&leaf("a", Some('-'), None)));
    assert!(!check_spelling(&leaf("a", None, Some("help"))));
    assert!(!check_spelling(&leaf("a", None, Some("-dash"))));
    assert!(check_spelling(&leaf("a", None, Some("helper"))));
}

#[test]
fn help_identifier_and_bare_flag_are_refused() {
    assert!(!check_spelling(&leaf("help", Some('x'), None)));
    assert!(!check_spelling(&leaf("quiet", None, None)));
    let positional = FieldSpec::Leaf(LeafSpec {
        id: "input".to_string(),
        short: None,
        long: None,
        takes_value: true,
    });
    assert!(check_spelling(&positional));
}
