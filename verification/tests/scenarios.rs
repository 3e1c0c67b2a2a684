use menu::argument_finder;
use menu::InputEvent;
use menu::Item;
use menu::ItemType;
use menu::Menu;
use menu::Parameter;
use menu::ProcessOutcome;
use menu::Runner;

/// Handlers are plain numbers here: the library hands them back and the
/// test checks which one it was told to run.
fn demo_menu() -> Menu<u32> {
    Menu {
        label: "root".to_string(),
        items: vec![
            Item {
                command: "foo".to_string(),
                help: Some("Does foo things".to_string()),
                item_type: ItemType::Callback {
                    function: 1,
                    parameters: vec![
                        Parameter::Mandatory {
                            parameter_name: "a".to_string(),
                            help: None,
                        },
                        Parameter::Optional {
                            parameter_name: "b".to_string(),
                            help: None,
                        },
                        Parameter::Named {
                            parameter_name: "verbose".to_string(),
                            help: None,
                        },
                        Parameter::NamedValue {
                            parameter_name: "level".to_string(),
                            argument_name: "INT".to_string(),
                            help: None,
                        },
                    ],
                },
            },
            Item {
                command: "bar".to_string(),
                help: None,
                item_type: ItemType::Callback {
                    function: 2,
                    parameters: vec![],
                },
            },
            Item {
                command: "sub".to_string(),
                help: None,
                item_type: ItemType::Menu(Box::new(Menu {
                    label: "sub".to_string(),
                    items: vec![Item {
                        command: "baz".to_string(),
                        help: None,
                        item_type: ItemType::Callback {
                            function: 3,
                            parameters: vec![],
                        },
                    }],
                    entry: Some(10),
                    exit: Some(11),
                })),
            },
        ],
        entry: Some(100),
        exit: None,
    }
}

fn submit(runner: &mut Runner<u32>, line: &str) -> menu::InputResult<u32> {
    let mut last = None;
    for b in line.bytes() {
        last = Some(runner.input_byte(b));
    }
    let res = runner.input_byte(0x0d);
    let _ = last;
    res
}

#[test]
fn invoke_with_all_argument_kinds() {
    let (mut runner, entry, prompt) = Runner::new(demo_menu(), 64, false);
    assert_eq!(entry, Some(100));
    assert_eq!(prompt, "\n> ");
    let res = submit(&mut runner, "foo x y --verbose --level=9");
    match res.event {
        InputEvent::Submitted(ProcessOutcome::Invoke {
            index,
            function,
            args,
        }) => {
            assert_eq!(index, 0);
            assert_eq!(function, 1);
            assert_eq!(args, vec!["x", "y", "--verbose", "--level=9"]);
            let menu = runner.current_menu();
            let item = &menu.items[index];
            assert_eq!(argument_finder(item, &args, "a"), Ok(Some("x".to_string())));
            assert_eq!(argument_finder(item, &args, "b"), Ok(Some("y".to_string())));
            assert_eq!(
                argument_finder(item, &args, "verbose"),
                Ok(Some("".to_string()))
            );
            assert_eq!(
                argument_finder(item, &args, "level"),
                Ok(Some("9".to_string()))
            );
        }
        _ => panic!("expected an invocation"),
    }
}

#[test]
fn enter_and_exit_submenu() {
    let (mut runner, _, _) = Runner::new(demo_menu(), 64, false);
    let res = submit(&mut runner, "sub");
    match res.event {
        InputEvent::Submitted(ProcessOutcome::EnteredMenu { index, entry }) => {
            assert_eq!(index, 2);
            assert_eq!(entry, Some(10));
        }
        _ => panic!("expected to enter the sub-menu"),
    }
    assert_eq!(runner.depth(), 1);
    assert_eq!(runner.current_menu().label, "sub");
    // The prompt now shows the label of the menu above the current one.
    assert!(res.output.ends_with("\nroot> "));
    let res = submit(&mut runner, "exit");
    match res.event {
        InputEvent::Submitted(ProcessOutcome::ExitedMenu { exit }) => {
            assert_eq!(exit, Some(11));
        }
        _ => panic!("expected to leave the sub-menu"),
    }
    assert_eq!(runner.depth(), 0);
    assert_eq!(runner.current_menu().label, "root");
}

#[test]
fn unknown_command_is_reported() {
    let (mut runner, _, _) = Runner::new(demo_menu(), 64, false);
    let res = submit(&mut runner, "nonexistent");
    assert!(matches!(
        res.event,
        InputEvent::Submitted(ProcessOutcome::CommandNotFound)
    ));
    assert!(res
        .output
        .contains("Command \"nonexistent\" not found. Try 'help'."));
    assert_eq!(runner.depth(), 0);
}

#[test]
fn missing_mandatory_argument() {
    let (mut runner, _, _) = Runner::new(demo_menu(), 64, false);
    let res = submit(&mut runner, "foo");
    assert!(matches!(
        res.event,
        InputEvent::Submitted(ProcessOutcome::InsufficientArguments)
    ));
    assert!(res.output.contains("Error: Insufficient arguments given"));
}

#[test]
fn overflow_keeps_accepted_bytes() {
    let (mut runner, _, _) = Runner::new(demo_menu(), 3, false);
    for b in "bar".bytes() {
        let res = runner.input_byte(b);
        assert!(matches!(res.event, InputEvent::Pending));
    }
    // The buffer is full: further bytes are dropped with a warning.
    let res = runner.input_byte(b'x');
    assert!(matches!(res.event, InputEvent::Overflow));
    assert_eq!(res.output, "Buffer overflow!\n");
    let res = runner.input_byte(b'y');
    assert!(matches!(res.event, InputEvent::Overflow));
    // A carriage return still submits exactly the bytes accepted before.
    let res = runner.input_byte(0x0d);
    match res.event {
        InputEvent::Submitted(ProcessOutcome::Invoke {
            index,
            function,
            args,
        }) => {
            assert_eq!(index, 1);
            assert_eq!(function, 2);
            assert_eq!(args, Vec::<String>::new());
        }
        _ => panic!("expected the buffered command to run"),
    }
}

fn nested(levels: u32) -> Menu<u32> {
    let mut menu = Menu {
        label: "m0".to_string(),
        items: vec![],
        entry: None,
        exit: None,
    };
    for level in 0..levels {
        menu = Menu {
            label: format!("m{}", levels - level),
            items: vec![Item {
                command: "down".to_string(),
                help: None,
                item_type: ItemType::Menu(Box::new(menu)),
            }],
            entry: None,
            exit: None,
        };
    }
    menu
}

#[test]
fn depth_limit_reports_too_deep() {
    let (mut runner, _, _) = Runner::new(nested(5), 64, false);
    for _ in 0..4 {
        let res = submit(&mut runner, "down");
        assert!(matches!(
            res.event,
            InputEvent::Submitted(ProcessOutcome::EnteredMenu { .. })
        ));
    }
    assert_eq!(runner.depth(), 4);
    let res = submit(&mut runner, "down");
    assert!(matches!(
        res.event,
        InputEvent::Submitted(ProcessOutcome::TooDeep)
    ));
    assert!(res.output.contains("Can't enter menu - structure too deep"));
    assert_eq!(runner.depth(), 4);
}

#[test]
fn invalid_utf8_line_is_discarded() {
    let (mut runner, _, _) = Runner::new(demo_menu(), 64, false);
    let res = runner.input_byte(0xff);
    assert!(matches!(res.event, InputEvent::Pending));
    let res = runner.input_byte(0x0d);
    assert!(matches!(res.event, InputEvent::InvalidUtf8));
    assert!(res.output.contains("Input was not valid UTF-8"));
    assert_eq!(runner.depth(), 0);
    // The buffer was reset: a proper command works right away.
    let res = submit(&mut runner, "bar");
    assert!(matches!(
        res.event,
        InputEvent::Submitted(ProcessOutcome::Invoke { function: 2, .. })
    ));
}

#[test]
fn backspace_erases_one_byte() {
    let (mut runner, _, _) = Runner::new(demo_menu(), 64, false);
    runner.input_byte(b'b');
    runner.input_byte(b'a');
    runner.input_byte(b'r');
    runner.input_byte(b'r');
    let res = runner.input_byte(0x08);
    assert_eq!(res.output, "\u{0008} \u{0008}");
    let res = runner.input_byte(0x0d);
    assert!(matches!(
        res.event,
        InputEvent::Submitted(ProcessOutcome::Invoke { function: 2, .. })
    ));
}

#[test]
fn backspace_on_empty_buffer_is_a_no_op() {
    let (mut runner, _, _) = Runner::new(demo_menu(), 64, false);
    let res = runner.input_byte(0x7f);
    assert!(matches!(res.event, InputEvent::Pending));
    assert_eq!(res.output, "");
}

#[test]
fn line_feed_is_ignored() {
    let (mut runner, _, _) = Runner::new(demo_menu(), 64, false);
    let res = runner.input_byte(0x0a);
    assert!(matches!(res.event, InputEvent::Pending));
    assert_eq!(res.output, "");
    assert_eq!(runner.depth(), 0);
}

#[test]
fn echo_redraws_prompt_and_line() {
    let (mut runner, _, _) = Runner::new(demo_menu(), 64, true);
    let res = runner.input_byte(b'f');
    assert_eq!(res.output, "\r> f");
    let res = runner.input_byte(b'o');
    assert_eq!(res.output, "\r> fo");
}

#[test]
fn help_listing_shows_every_item() {
    let (mut runner, _, _) = Runner::new(demo_menu(), 64, false);
    let res = submit(&mut runner, "help");
    assert!(matches!(
        res.event,
        InputEvent::Submitted(ProcessOutcome::HelpList)
    ));
    assert_eq!(
        res.output,
        "\rhelp\nAVAILABLE ITEMS:\n  foo <a> [ <b> ] [OPTIONS...]\n  bar\n  sub\n  help [ <command> ]\n\n> "
    );
}

#[test]
fn help_listing_offers_exit_below_the_root() {
    let (mut runner, _, _) = Runner::new(demo_menu(), 64, false);
    submit(&mut runner, "sub");
    let res = submit(&mut runner, "help");
    assert_eq!(
        res.output,
        "\rhelp\nAVAILABLE ITEMS:\n  baz\n  exit\n  help [ <command> ]\n\nroot> "
    );
}

#[test]
fn long_help_renders_each_parameter() {
    let (mut runner, _, _) = Runner::new(demo_menu(), 64, false);
    let res = submit(&mut runner, "help foo");
    match res.event {
        InputEvent::Submitted(ProcessOutcome::HelpItem { index }) => assert_eq!(index, 0),
        _ => panic!("expected item help"),
    }
    assert_eq!(
        res.output,
        "\rhelp foo\nSUMMARY:\n  foo <a> [ <b> ] [ --verbose ] [ --level=INT ]\n\nPARAMETERS:\n  <a>\n    Undocumented option\n\n  <b>\n    Undocumented option\n\n  --verbose\n    Undocumented option\n\n  --level=INT\n    Undocumented option\n\n\n\nDESCRIPTION:\nDoes foo things\n\n> "
    );
}

#[test]
fn help_with_unknown_topic() {
    let (mut runner, _, _) = Runner::new(demo_menu(), 64, false);
    let res = submit(&mut runner, "help nope");
    assert!(matches!(
        res.event,
        InputEvent::Submitted(ProcessOutcome::HelpUnknown)
    ));
    assert!(res.output.contains("I can't help with \"nope\""));
}

#[test]
fn unknown_flag_is_refused() {
    let (mut runner, _, _) = Runner::new(demo_menu(), 64, false);
    let res = submit(&mut runner, "foo x --frobnicate");
    assert!(matches!(
        res.event,
        InputEvent::Submitted(ProcessOutcome::UnknownArgument)
    ));
    assert!(res.output.contains("Error: Did not understand \"--frobnicate\""));
}

#[test]
fn too_many_arguments_are_refused() {
    let (mut runner, _, _) = Runner::new(demo_menu(), 64, false);
    let res = submit(&mut runner, "foo x y z");
    assert!(matches!(
        res.event,
        InputEvent::Submitted(ProcessOutcome::TooManyArguments)
    ));
    assert!(res.output.contains("Error: Too many arguments given"));
}

#[test]
fn empty_line_is_reported() {
    let (mut runner, _, _) = Runner::new(demo_menu(), 64, false);
    let res = submit(&mut runner, "   ");
    assert!(matches!(
        res.event,
        InputEvent::Submitted(ProcessOutcome::EmptyInput)
    ));
    assert!(res.output.contains("Input was empty?"));
}

#[test]
fn exit_at_the_root_is_not_a_command() {
    let (mut runner, _, _) = Runner::new(demo_menu(), 64, false);
    let res = submit(&mut runner, "exit");
    assert!(matches!(
        res.event,
        InputEvent::Submitted(ProcessOutcome::CommandNotFound)
    ));
    assert!(res.output.contains("Command \"exit\" not found."));
}
