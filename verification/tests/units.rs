use menu::argument_finder;
use menu::str_eq;
use menu::tokenize_line;
use menu::validate_arguments;
use menu::ArgCheck;
use menu::Error;
use menu::Item;
use menu::ItemType;
use menu::Menu;
use menu::MenuManager;
use menu::Parameter;

fn args(list: &[&str]) -> Vec<String> {
    list.iter().map(|s| s.to_string()).collect()
}

#[test]
fn tokenizer_splits_on_whitespace() {
    assert_eq!(tokenize_line("foo x y"), vec!["foo", "x", "y"]);
    assert_eq!(tokenize_line("  foo \t bar  "), vec!["foo", "bar"]);
    assert_eq!(tokenize_line(""), Vec::<String>::new());
    assert_eq!(tokenize_line("   "), Vec::<String>::new());
    assert_eq!(tokenize_line("one"), vec!["one"]);
}

#[test]
fn str_eq_compares_contents() {
    assert!(str_eq("abc", "abc"));
    assert!(!str_eq("abc", "abd"));
    assert!(!str_eq("abc", "abcd"));
    assert!(str_eq("", ""));
}

fn one_mandatory_one_optional() -> Vec<Parameter> {
    vec![
        Parameter::Mandatory {
            parameter_name: "a".to_string(),
            help: None,
        },
        Parameter::Optional {
            parameter_name: "b".to_string(),
            help: None,
        },
        Parameter::Named {
            parameter_name: "verbose".to_string(),
            help: None,
        },
        Parameter::NamedValue {
            parameter_name: "level".to_string(),
            argument_name: "INT".to_string(),
            help: None,
        },
    ]
}

#[test]
fn positional_counts_gate_validation() {
    let params = one_mandatory_one_optional();
    // One mandatory, one optional: zero positionals is one short.
    assert_eq!(validate_arguments(&params, &args(&[])), ArgCheck::Insufficient);
    assert_eq!(validate_arguments(&params, &args(&["x"])), ArgCheck::Accepted);
    assert_eq!(
        validate_arguments(&params, &args(&["x", "y"])),
        ArgCheck::Accepted
    );
    assert_eq!(
        validate_arguments(&params, &args(&["x", "y", "z"])),
        ArgCheck::TooMany
    );
    // Named tokens do not count against the positional capacity.
    assert_eq!(
        validate_arguments(&params, &args(&["x", "--verbose", "--level=3"])),
        ArgCheck::Accepted
    );
}

#[test]
fn unknown_flags_are_refused_first() {
    let params = one_mandatory_one_optional();
    assert_eq!(
        validate_arguments(&params, &args(&["x", "--nope"])),
        ArgCheck::UnknownFlag { token_index: 1 }
    );
    // A bare `--level` has no `=`, so it does not match the NamedValue.
    assert_eq!(
        validate_arguments(&params, &args(&["--level", "x"])),
        ArgCheck::UnknownFlag { token_index: 0 }
    );
    // A valued `--verbose=yes` does not match the bare Named flag.
    assert_eq!(
        validate_arguments(&params, &args(&["x", "--verbose=yes"])),
        ArgCheck::UnknownFlag { token_index: 1 }
    );
}

#[test]
fn finder_refuses_menu_items() {
    let item: Item<u32> = Item {
        command: "sub".to_string(),
        help: None,
        item_type: ItemType::Menu(Box::new(Menu {
            label: "sub".to_string(),
            items: vec![],
            entry: None,
            exit: None,
        })),
    };
    assert_eq!(
        argument_finder(&item, &args(&["a"]), "a"),
        Err(Error::NotACallbackItem)
    );
}

#[test]
fn finder_takes_first_matching_token() {
    let item: Item<u32> = Item {
        command: "dummy".to_string(),
        help: None,
        item_type: ItemType::Callback {
            function: 0,
            parameters: vec![Parameter::NamedValue {
                parameter_name: "k".to_string(),
                argument_name: "V".to_string(),
                help: None,
            }],
        },
    };
    assert_eq!(
        argument_finder(&item, &args(&["--k=first", "--k=second"]), "k"),
        Ok(Some("first".to_string()))
    );
}

fn menu_with_sub() -> Menu<u32> {
    Menu {
        label: "top".to_string(),
        items: vec![Item {
            command: "down".to_string(),
            help: None,
            item_type: ItemType::Menu(Box::new(Menu {
                label: "inner".to_string(),
                items: vec![],
                entry: None,
                exit: None,
            })),
        }],
        entry: None,
        exit: None,
    }
}

#[test]
fn navigator_tracks_depth() {
    let mut mgr: MenuManager<u32> = MenuManager::new(menu_with_sub());
    assert_eq!(mgr.depth(), 0);
    assert_eq!(mgr.get_menu(None).label, "top");
    assert!(mgr.push_menu(0));
    assert_eq!(mgr.depth(), 1);
    assert_eq!(mgr.get_menu(None).label, "inner");
    assert_eq!(mgr.get_menu(Some(0)).label, "top");
    mgr.pop_menu();
    assert_eq!(mgr.depth(), 0);
    // Popping at the top level stays at the top level.
    mgr.pop_menu();
    assert_eq!(mgr.depth(), 0);
}

fn deep_menu(levels: u32) -> Menu<u32> {
    let mut menu = Menu {
        label: "bottom".to_string(),
        items: vec![],
        entry: None,
        exit: None,
    };
    for _ in 0..levels {
        menu = Menu {
            label: "level".to_string(),
            items: vec![Item {
                command: "down".to_string(),
                help: None,
                item_type: ItemType::Menu(Box::new(menu)),
            }],
            entry: None,
            exit: None,
        };
    }
    menu
}

#[test]
fn navigator_refuses_a_fifth_level() {
    let mut mgr: MenuManager<u32> = MenuManager::new(deep_menu(5));
    for _ in 0..4 {
        assert!(mgr.push_menu(0));
    }
    assert_eq!(mgr.depth(), 4);
    // The fifth descent is refused and the depth stays put.
    assert!(!mgr.push_menu(0));
    assert_eq!(mgr.depth(), 4);
}
