use menu::argument_finder;
use menu::Error;
use menu::Item;
use menu::ItemType;
use menu::Parameter;

fn dummy() {}

fn args(list: &[&str]) -> Vec<String> {
    list.iter().map(|s| s.to_string()).collect()
}

#[test]
fn find_arg_mandatory() {
    let item: Item<fn()> = Item {
        command: "dummy".to_string(),
        help: None,
        item_type: ItemType::Callback {
            function: dummy,
            parameters: vec![
                Parameter::Mandatory {
                    parameter_name: "foo".to_string(),
                    help: Some("Some help for foo".to_string()),
                },
                Parameter::Mandatory {
                    parameter_name: "bar".to_string(),
                    help: Some("Some help for bar".to_string()),
                },
                Parameter::Mandatory {
                    parameter_name: "baz".to_string(),
                    help: Some("Some help for baz".to_string()),
                },
            ],
        },
    };
    assert_eq!(
        argument_finder(&item, &args(&["a", "b", "c"]), "foo"),
        Ok(Some("a".to_string()))
    );
    assert_eq!(
        argument_finder(&item, &args(&["a", "b", "c"]), "bar"),
        Ok(Some("b".to_string()))
    );
    assert_eq!(
        argument_finder(&item, &args(&["a", "b", "c"]), "baz"),
        Ok(Some("c".to_string()))
    );
    // Not an argument
    assert_eq!(
        argument_finder(&item, &args(&["a", "b", "c"]), "quux"),
        Err(Error::NotFound)
    );
}

#[test]
fn find_arg_optional() {
    let item: Item<fn()> = Item {
        command: "dummy".to_string(),
        help: None,
        item_type: ItemType::Callback {
            function: dummy,
            parameters: vec![
                Parameter::Mandatory {
                    parameter_name: "foo".to_string(),
                    help: Some("Some help for foo".to_string()),
                },
                Parameter::Mandatory {
                    parameter_name: "bar".to_string(),
                    help: Some("Some help for bar".to_string()),
                },
                Parameter::Optional {
                    parameter_name: "baz".to_string(),
                    help: Some("Some help for baz".to_string()),
                },
            ],
        },
    };
    assert_eq!(
        argument_finder(&item, &args(&["a", "b", "c"]), "foo"),
        Ok(Some("a".to_string()))
    );
    assert_eq!(
        argument_finder(&item, &args(&["a", "b", "c"]), "bar"),
        Ok(Some("b".to_string()))
    );
    assert_eq!(
        argument_finder(&item, &args(&["a", "b", "c"]), "baz"),
        Ok(Some("c".to_string()))
    );
    // Not an argument
    assert_eq!(
        argument_finder(&item, &args(&["a", "b", "c"]), "quux"),
        Err(Error::NotFound)
    );
    // Missing optional
    assert_eq!(argument_finder(&item, &args(&["a", "b"]), "baz"), Ok(None));
}

#[test]
fn find_arg_named() {
    let item: Item<fn()> = Item {
        command: "dummy".to_string(),
        help: None,
        item_type: ItemType::Callback {
            function: dummy,
            parameters: vec![
                Parameter::Mandatory {
                    parameter_name: "foo".to_string(),
                    help: Some("Some help for foo".to_string()),
                },
                Parameter::Named {
                    parameter_name: "bar".to_string(),
                    help: Some("Some help for bar".to_string()),
                },
                Parameter::Named {
                    parameter_name: "baz".to_string(),
                    help: Some("Some help for baz".to_string()),
                },
            ],
        },
    };
    assert_eq!(
        argument_finder(&item, &args(&["a", "--bar", "--baz"]), "foo"),
        Ok(Some("a".to_string()))
    );
    assert_eq!(
        argument_finder(&item, &args(&["a", "--bar", "--baz"]), "bar"),
        Ok(Some("".to_string()))
    );
    assert_eq!(
        argument_finder(&item, &args(&["a", "--bar", "--baz"]), "baz"),
        Ok(Some("".to_string()))
    );
    // Not an argument
    assert_eq!(
        argument_finder(&item, &args(&["a", "--bar", "--baz"]), "quux"),
        Err(Error::NotFound)
    );
    // Missing named
    assert_eq!(argument_finder(&item, &args(&["a"]), "baz"), Ok(None));
}

#[test]
fn find_arg_namedvalue() {
    let item: Item<fn()> = Item {
        command: "dummy".to_string(),
        help: None,
        item_type: ItemType::Callback {
            function: dummy,
            parameters: vec![
                Parameter::Mandatory {
                    parameter_name: "foo".to_string(),
                    help: Some("Some help for foo".to_string()),
                },
                Parameter::Named {
                    parameter_name: "bar".to_string(),
                    help: Some("Some help for bar".to_string()),
                },
                Parameter::NamedValue {
                    parameter_name: "baz".to_string(),
                    argument_name: "TEST".to_string(),
                    help: Some("Some help for baz".to_string()),
                },
            ],
        },
    };
    assert_eq!(
        argument_finder(&item, &args(&["a", "--bar", "--baz"]), "foo"),
        Ok(Some("a".to_string()))
    );
    assert_eq!(
        argument_finder(&item, &args(&["a", "--bar", "--baz"]), "bar"),
        Ok(Some("".to_string()))
    );
    // No argument so mark as not found
    assert_eq!(
        argument_finder(&item, &args(&["a", "--bar", "--baz"]), "baz"),
        Ok(None)
    );
    // Empty argument
    assert_eq!(
        argument_finder(&item, &args(&["a", "--bar", "--baz="]), "baz"),
        Ok(Some("".to_string()))
    );
    // Short argument
    assert_eq!(
        argument_finder(&item, &args(&["a", "--bar", "--baz=1"]), "baz"),
        Ok(Some("1".to_string()))
    );
    // Long argument
    assert_eq!(
        argument_finder(
            &item,
            &args(&["a", "--bar", "--baz=abcdefghijklmnopqrstuvwxyz"]),
            "baz"
        ),
        Ok(Some("abcdefghijklmnopqrstuvwxyz".to_string()))
    );
    // Not an argument
    assert_eq!(
        argument_finder(&item, &args(&["a", "--bar", "--baz"]), "quux"),
        Err(Error::NotFound)
    );
    // Missing named
    assert_eq!(argument_finder(&item, &args(&["a"]), "baz"), Ok(None));
}
