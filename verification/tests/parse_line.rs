use hotkey_config::assemble::{has_enough_commands, parse_line};
use hotkey_config::binding::{parse_keybinding, KeyBinding, Modifier, Prefix};
use hotkey_config::error::{Error, ParseError};
use hotkey_config::hotkey::{Hotkey, KeyChord, ParseOutput};
use hotkey_config::keysym::Key;
use hotkey_config::line::{join_lines, load_to_lines, Line, LineType};

fn key(k: evdev::Key) -> Key {
    Key::new(k.code())
}

fn hotkey(k: evdev::Key, modifiers: Vec<Modifier>, command: &str) -> Hotkey {
    Hotkey::new(key(k), modifiers, command.to_string())
}

fn binding(k: evdev::Key, modifiers: Vec<Modifier>) -> KeyBinding {
    KeyBinding::new(key(k), modifiers)
}

fn parse_pairs(contents: &str, path: &str) -> Result<Vec<ParseOutput>, Error> {
    let lines = join_lines(load_to_lines(contents));
    let mut output = Vec::new();
    for pair in lines.windows(2) {
        if pair[0].linetype == LineType::Key && pair[1].linetype == LineType::Command {
            assert!(has_enough_commands(&pair[0], &pair[1]));
            output.extend(parse_line(pair[0].clone(), pair[1].clone(), path.to_string())?);
        }
    }
    Ok(output)
}

fn basic_case() {
    let keyline = Line { content: "super + b".to_string(), linetype: LineType::Key, linenumber: 1 };
    let commandline = Line { content: "b".to_string(), linetype: LineType::Command, linenumber: 2 };
    let output = parse_line(keyline, commandline, String::new());
    assert_eq!(
        output.unwrap()[0],
        ParseOutput::Hotkey(hotkey(evdev::Key::KEY_B, vec![Modifier::Super], "b"))
    );
}

fn curly_brace_case() {
    let keyline =
        Line { content: "super + {1,2,3,4}".to_string(), linetype: LineType::Key, linenumber: 1 };
    let commandline =
        Line { content: "{1,2,3,4}".to_string(), linetype: LineType::Command, linenumber: 2 };
    let output = parse_line(keyline, commandline, String::new());
    assert_eq!(
        output.unwrap(),
        vec![
            ParseOutput::Hotkey(hotkey(evdev::Key::KEY_1, vec![Modifier::Super], "1")),
            ParseOutput::Hotkey(hotkey(evdev::Key::KEY_2, vec![Modifier::Super], "2")),
            ParseOutput::Hotkey(hotkey(evdev::Key::KEY_3, vec![Modifier::Super], "3")),
            ParseOutput::Hotkey(hotkey(evdev::Key::KEY_4, vec![Modifier::Super], "4")),
        ]
    );
}

fn multiple_curly_braces_case() {
    let keyline = Line {
        content: "super + {shift+, ctrl+} {1,2,3,4}".to_string(),
        linetype: LineType::Key,
        linenumber: 1,
    };
    let commandline = Line {
        content: "{1,2,3,4, 5,6,  7,8}".to_string(),
        linetype: LineType::Command,
        linenumber: 2,
    };
    let output = parse_line(keyline, commandline, String::new());
    assert_eq!(
        output.unwrap(),
        vec![
            ParseOutput::Hotkey(hotkey(
                evdev::Key::KEY_1,
                vec![Modifier::Super, Modifier::Shift],
                "1"
            )),
            ParseOutput::Hotkey(hotkey(
                evdev::Key::KEY_2,
                vec![Modifier::Super, Modifier::Shift],
                "2"
            )),
            ParseOutput::Hotkey(hotkey(
                evdev::Key::KEY_3,
                vec![Modifier::Super, Modifier::Shift],
                "3"
            )),
            ParseOutput::Hotkey(hotkey(
                evdev::Key::KEY_4,
                vec![Modifier::Super, Modifier::Shift],
                "4"
            )),
            ParseOutput::Hotkey(hotkey(
                evdev::Key::KEY_1,
                vec![Modifier::Super, Modifier::Control],
                "5"
            )),
            ParseOutput::Hotkey(hotkey(
                evdev::Key::KEY_2,
                vec![Modifier::Super, Modifier::Control],
                "6"
            )),
            ParseOutput::Hotkey(hotkey(
                evdev::Key::KEY_3,
                vec![Modifier::Super, Modifier::Control],
                "7"
            )),
            ParseOutput::Hotkey(hotkey(
                evdev::Key::KEY_4,
                vec![Modifier::Super, Modifier::Control],
                "8"
            )),
        ]
    );
}

fn keychord_basic_case() {
    let keyline =
        Line { content: "super + a; b".to_string(), linetype: LineType::Key, linenumber: 1 };
    let commandline = Line { content: "a".to_string(), linetype: LineType::Command, linenumber: 2 };
    let output = parse_line(keyline, commandline, String::new());
    assert_eq!(
        output.unwrap(),
        vec![ParseOutput::KeyChord(KeyChord {
            entry: binding(evdev::Key::KEY_A, vec![Modifier::Super]),
            chords: vec![vec![binding(evdev::Key::KEY_B, vec![])]],
            commands: vec!["a".to_string()],
        })]
    );
}

fn keychord_complex_case() {
    let keyline = Line {
        content: "super + {1,2}; {3,4}; {5,6}".to_string(),
        linetype: LineType::Key,
        linenumber: 1,
    };
    let commandline = Line {
        content: "{1,2,3,4,5,6,7,8}".to_string(),
        linetype: LineType::Command,
        linenumber: 2,
    };
    let output = parse_line(keyline, commandline, String::new());
    println!("{:#?}", output);
    assert_eq!(
        output.unwrap(),
        vec![
            ParseOutput::KeyChord(KeyChord {
                entry: binding(evdev::Key::KEY_1, vec![Modifier::Super]),
                chords: vec![
                    vec![binding(evdev::Key::KEY_3, vec![]), binding(evdev::Key::KEY_5, vec![])],
                    vec![binding(evdev::Key::KEY_3, vec![]), binding(evdev::Key::KEY_6, vec![])],
                    vec![binding(evdev::Key::KEY_4, vec![]), binding(evdev::Key::KEY_5, vec![])],
                    vec![binding(evdev::Key::KEY_4, vec![]), binding(evdev::Key::KEY_6, vec![])],
                ],
                commands: vec![
                    "1".to_string(),
                    "2".to_string(),
                    "3".to_string(),
                    "4".to_string(),
                ],
            }),
            ParseOutput::KeyChord(KeyChord {
                entry: binding(evdev::Key::KEY_2, vec![Modifier::Super]),
                chords: vec![
                    vec![binding(evdev::Key::KEY_3, vec![]), binding(evdev::Key::KEY_5, vec![])],
                    vec![binding(evdev::Key::KEY_3, vec![]), binding(evdev::Key::KEY_6, vec![])],
                    vec![binding(evdev::Key::KEY_4, vec![]), binding(evdev::Key::KEY_5, vec![])],
                    vec![binding(evdev::Key::KEY_4, vec![]), binding(evdev::Key::KEY_6, vec![])],
                ],
                commands: vec![
                    "5".to_string(),
                    "6".to_string(),
                    "7".to_string(),
                    "8".to_string(),
                ],
            }),
        ]
    );
}

#[test]
fn parse_test_parse_line_basic() {
    basic_case();
}

#[test]
fn tests_test_parse_line_basic() {
    basic_case();
}

#[test]
fn parse_test_parse_line_curly_brace() {
    curly_brace_case();
}

#[test]
fn tests_test_parse_line_curly_brace() {
    curly_brace_case();
}

#[test]
fn parse_test_parse_line_multiple_curly_braces() {
    multiple_curly_braces_case();
}

#[test]
fn tests_test_parse_line_multiple_curly_braces() {
    multiple_curly_braces_case();
}

#[test]
fn parse_test_parse_line_keychord_basic() {
    keychord_basic_case();
}

#[test]
fn tests_test_parse_line_keychord_basic() {
    keychord_basic_case();
}

#[test]
fn parse_test_parse_line_keychord_complex() {
    keychord_complex_case();
}

#[test]
fn tests_test_parse_line_keychord_complex() {
    keychord_complex_case();
}

#[test]
fn test_parse_prefixes() {
    let contents = "
super + @a
    a
super + ~b
    b
super + @~c
    c
super + ~@d
    d";
    let expected = vec![
        hotkey(evdev::Key::KEY_A, vec![Modifier::Super], "a").on_release(),
        hotkey(evdev::Key::KEY_B, vec![Modifier::Super], "b").send(),
        hotkey(evdev::Key::KEY_C, vec![Modifier::Super], "c").on_release().send(),
        hotkey(evdev::Key::KEY_D, vec![Modifier::Super], "d").on_release().send(),
    ];
    let output = parse_pairs(contents, "");
    println!("{:#?}", output);
    assert!(output.is_ok());
    assert_eq!(output.as_ref().unwrap().len(), expected.len());
    for item in output.unwrap() {
        match item {
            ParseOutput::Hotkey(found) => assert!(expected.contains(&found)),
            ParseOutput::KeyChord(_) => panic!("a key chord where a hotkey belongs"),
        }
    }
}

#[test]
fn prefixes_give_exactly_these_flags() {
    let flags = |text: &str| {
        let b = parse_keybinding(text, 1, String::new()).unwrap();
        (b.on_release, b.send)
    };
    assert_eq!(flags("super + a"), (false, false));
    assert_eq!(flags("super + @a"), (true, false));
    assert_eq!(flags("super + ~a"), (false, true));
    assert_eq!(flags("super + @~a"), (true, true));
    assert_eq!(flags("super + ~@a"), (true, true));
    // Only the first two characters decide, however many prefixes are stripped.
    assert_eq!(flags("@@~a"), (true, false));
    assert_eq!(flags("~~@a"), (false, true));
    assert_eq!(flags("@~@~@a"), (true, true));
}

#[test]
fn a_binding_lists_its_modifiers_in_order_and_ignores_case() {
    let b = parse_keybinding("  Ctrl+ MOD1 +shift + Mod4+  Return ", 9, String::new()).unwrap();
    assert_eq!(b.keysym, key(evdev::Key::KEY_ENTER));
    assert_eq!(
        b.modifiers,
        vec![Modifier::Control, Modifier::Alt, Modifier::Shift, Modifier::Super]
    );
    assert!(!b.send && !b.on_release);
}

#[test]
fn an_unknown_key_or_modifier_gives_its_error_with_path_and_line() {
    match parse_keybinding("super + nosuchkey", 12, "a/b.conf".to_string()) {
        Err(Error::InvalidConfig(e)) => {
            assert_eq!(e, ParseError::UnknownSymbol("a/b.conf".to_string(), 12))
        }
        other => panic!("{:?}", other),
    }
    match parse_keybinding("hyper + a", 3, "x".to_string()) {
        Err(Error::InvalidConfig(e)) => {
            assert_eq!(e, ParseError::InvalidModifier("x".to_string(), 3))
        }
        other => panic!("{:?}", other),
    }
    // A bad modifier is reported even if the key is bad too.
    match parse_keybinding("hyper + nosuchkey", 3, "x".to_string()) {
        Err(Error::InvalidConfig(e)) => {
            assert_eq!(e, ParseError::InvalidModifier("x".to_string(), 3))
        }
        other => panic!("{:?}", other),
    }
    // An empty expression names no key.
    match parse_keybinding("", 1, String::new()) {
        Err(Error::InvalidConfig(e)) => assert_eq!(e, ParseError::UnknownSymbol(String::new(), 1)),
        other => panic!("{:?}", other),
    }
    // A plus sign at the end leaves the key empty.
    match parse_keybinding("super +", 1, String::new()) {
        Err(Error::InvalidConfig(e)) => assert_eq!(e, ParseError::UnknownSymbol(String::new(), 1)),
        other => panic!("{:?}", other),
    }
}

#[test]
fn parse_line_reports_the_line_of_the_key_line() {
    let keyline =
        Line { content: "super + {a,bogus}".to_string(), linetype: LineType::Key, linenumber: 41 };
    let commandline =
        Line { content: "{x,y}".to_string(), linetype: LineType::Command, linenumber: 42 };
    match parse_line(keyline, commandline, "my.conf".to_string()) {
        Err(Error::InvalidConfig(e)) => {
            assert_eq!(e, ParseError::UnknownSymbol("my.conf".to_string(), 41))
        }
        other => panic!("{:?}", other),
    }
}

#[test]
fn in_a_chord_the_sequences_are_read_before_the_entries() {
    let keyline = Line {
        content: "bogus + a; hyper + b".to_string(),
        linetype: LineType::Key,
        linenumber: 5,
    };
    let commandline = Line { content: "x".to_string(), linetype: LineType::Command, linenumber: 6 };
    match parse_line(keyline, commandline, "p".to_string()) {
        Err(Error::InvalidConfig(e)) => {
            assert_eq!(e, ParseError::InvalidModifier("p".to_string(), 5))
        }
        other => panic!("{:?}", other),
    }
    let keyline =
        Line { content: "super + a; nokey".to_string(), linetype: LineType::Key, linenumber: 5 };
    let commandline = Line { content: "x".to_string(), linetype: LineType::Command, linenumber: 6 };
    match parse_line(keyline, commandline, "p".to_string()) {
        Err(Error::InvalidConfig(e)) => {
            assert_eq!(e, ParseError::UnknownSymbol("p".to_string(), 5))
        }
        other => panic!("{:?}", other),
    }
}

#[test]
fn commands_left_over_are_not_used() {
    let keyline = Line { content: "alt + {a,b}".to_string(), linetype: LineType::Key, linenumber: 1 };
    let commandline =
        Line { content: "run {1-5}".to_string(), linetype: LineType::Command, linenumber: 2 };
    assert!(has_enough_commands(&keyline, &commandline));
    let output = parse_line(keyline, commandline, String::new()).unwrap();
    assert_eq!(
        output,
        vec![
            ParseOutput::Hotkey(hotkey(evdev::Key::KEY_A, vec![Modifier::Alt], "run 1")),
            ParseOutput::Hotkey(hotkey(evdev::Key::KEY_B, vec![Modifier::Alt], "run 2")),
        ]
    );
}

#[test]
fn has_enough_commands_counts_bindings() {
    let line = |content: &str, linetype| Line { content: content.to_string(), linetype, linenumber: 1 };
    assert!(!has_enough_commands(
        &line("super + {a,b,c}", LineType::Key),
        &line("{1,2}", LineType::Command)
    ));
    assert!(has_enough_commands(
        &line("super + {a,b,c}", LineType::Key),
        &line("{1,2,3}", LineType::Command)
    ));
    // Two entries with three key sequences each take six commands.
    assert!(!has_enough_commands(
        &line("{a,b}; {c,d,e}", LineType::Key),
        &line("{1-5}", LineType::Command)
    ));
    assert!(has_enough_commands(
        &line("{a,b}; {c,d,e}", LineType::Key),
        &line("{1-6}", LineType::Command)
    ));
    assert!(has_enough_commands(&line("a", LineType::Key), &line("", LineType::Command)));
}

#[test]
fn every_key_chord_has_a_command_for_each_sequence() {
    let keyline = Line {
        content: "ctrl + {a-c}; {x,y}; {1-3}".to_string(),
        linetype: LineType::Key,
        linenumber: 1,
    };
    let commandline =
        Line { content: "cmd{a-r}".to_string(), linetype: LineType::Command, linenumber: 2 };
    let output = parse_line(keyline, commandline, String::new()).unwrap();
    assert_eq!(output.len(), 3);
    let mut seen = Vec::new();
    for item in output {
        match item {
            ParseOutput::KeyChord(chord) => {
                assert_eq!(chord.chords.len(), 6);
                assert_eq!(chord.commands.len(), chord.chords.len());
                seen.extend(chord.commands);
            }
            ParseOutput::Hotkey(_) => panic!("a hotkey where a key chord belongs"),
        }
    }
    let expected: Vec<String> = ('a'..='r').map(|c| format!("cmd{}", c)).collect();
    assert_eq!(seen, expected);
}
