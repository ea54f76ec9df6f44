use hotkey_config::error::{Error, ParseError};

#[test]
fn a_missing_file_is_config_not_found() {
    assert!(matches!(Error::from_io(true, "No such file".to_string()), Error::ConfigNotFound));
    match Error::from_io(false, "Permission denied (os error 13)".to_string()) {
        Error::Io(reason) => assert_eq!(reason, "Permission denied (os error 13)"),
        other => panic!("{:?}", other),
    }
}

#[test]
fn messages_read_like_this() {
    assert_eq!(Error::ConfigNotFound.message(), "Config file not found.");
    assert_eq!(
        Error::Io("Permission denied (os error 13)".to_string()).message(),
        "I/O Error while parsing config file: Permission denied (os error 13)"
    );
    assert_eq!(
        Error::InvalidConfig(ParseError::UnknownSymbol("/etc/hotkeys/config".to_string(), 12))
            .message(),
        "Error parsing config file \"/etc/hotkeys/config\". Unknown symbol at line 12."
    );
    assert_eq!(
        Error::InvalidConfig(ParseError::InvalidKeysym("a".to_string(), 0)).message(),
        "Error parsing config file \"a\". Invalid keysym at line 0."
    );
    assert_eq!(
        Error::InvalidConfig(ParseError::InvalidModifier(String::new(), 4294967295)).message(),
        "Error parsing config file \"\". Invalid modifier at line 4294967295."
    );
    assert_eq!(
        ParseError::InvalidModifier("x".to_string(), 7).message(),
        "Error parsing config file \"x\". Invalid modifier at line 7."
    );
}

#[test]
fn messages_quote_the_path_and_count_in_decimal() {
    for path in ["plain", "with space", "quote\"inside", "back\\slash", "tab\there", "é"] {
        for line in [0u32, 1, 9, 10, 11, 99, 100, 101, 1000, 65535, 1234567890, u32::MAX] {
            assert_eq!(
                ParseError::UnknownSymbol(path.to_string(), line).message(),
                format!("Error parsing config file {:?}. Unknown symbol at line {}.", path, line)
            );
            assert_eq!(
                ParseError::InvalidKeysym(path.to_string(), line).message(),
                format!("Error parsing config file {:?}. Invalid keysym at line {}.", path, line)
            );
            assert_eq!(
                ParseError::InvalidModifier(path.to_string(), line).message(),
                format!("Error parsing config file {:?}. Invalid modifier at line {}.", path, line)
            );
        }
    }
}

#[test]
fn parse_errors_compare_by_kind_path_and_line() {
    let error = ParseError::UnknownSymbol("a".to_string(), 1);
    assert_eq!(error, ParseError::UnknownSymbol("a".to_string(), 1));
    assert_ne!(error, ParseError::UnknownSymbol("a".to_string(), 2));
    assert_ne!(error, ParseError::UnknownSymbol("b".to_string(), 1));
    assert_ne!(error, ParseError::InvalidKeysym("a".to_string(), 1));
    assert_ne!(error, ParseError::InvalidModifier("a".to_string(), 1));
}
