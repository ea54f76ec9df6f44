use hotkey_config::config::{Config, Resolver, IMPORT_STATEMENT};
use hotkey_config::error::{Error, ParseError};

fn strings(items: &[&str]) -> Vec<String> {
    items.iter().map(|s| s.to_string()).collect()
}

fn read(files: &[(&str, &str)], path: &str) -> Result<String, Error> {
    match files.iter().find(|(p, _)| *p == path) {
        Some((_, contents)) => Ok(contents.to_string()),
        None => Err(Error::from_io(true, "No such file or directory".to_string())),
    }
}

fn resolve(files: &[(&str, &str)], root: &str) -> Result<Vec<Config>, Error> {
    let root = Config::new(root, read(files, root))?;
    let mut state = Resolver::new(vec![root]);
    let mut steps = 0;
    loop {
        let imports = match state.current() {
            Some(config) => config.imports.clone(),
            None => break,
        };
        let mut loaded = Vec::new();
        for path in imports {
            let outcome = read(files, &path);
            let failed = outcome.is_err();
            loaded.push(outcome);
            if failed {
                break;
            }
        }
        state = Config::load_and_merge(state, loaded)?;
        steps += 1;
        assert!(steps < 1000);
    }
    Ok(state.into_configs())
}

fn paths(configs: &[Config]) -> Vec<String> {
    configs.iter().map(|c| c.path.clone()).collect()
}

#[test]
fn imports_are_the_second_words_of_include_lines() {
    assert_eq!(IMPORT_STATEMENT, "include");
    let text = "include a.conf\nsuper + a\n\tls\ninclude /etc/b.conf trailing words\n";
    assert_eq!(Config::get_imports(text).unwrap(), strings(&["a.conf", "/etc/b.conf"]));
    assert_eq!(Config::get_imports("").unwrap(), Vec::<String>::new());
    assert_eq!(Config::get_imports("super + a\n  ls").unwrap(), Vec::<String>::new());
}

#[test]
fn only_a_first_word_that_is_exactly_the_keyword_imports() {
    // No second word, the keyword not first, or not alone.
    assert_eq!(Config::get_imports("include").unwrap(), Vec::<String>::new());
    assert_eq!(Config::get_imports(" include a").unwrap(), Vec::<String>::new());
    assert_eq!(Config::get_imports("includes a").unwrap(), Vec::<String>::new());
    assert_eq!(Config::get_imports("Include a").unwrap(), Vec::<String>::new());
    assert_eq!(Config::get_imports("include\ta").unwrap(), Vec::<String>::new());
    // Words are split at single spaces: two spaces make an empty second word.
    assert_eq!(Config::get_imports("include  a").unwrap(), strings(&[""]));
    assert_eq!(Config::get_imports("include ").unwrap(), strings(&[""]));
    assert_eq!(Config::get_imports("include a\r\ninclude b").unwrap(), strings(&["a", "b"]));
}

#[test]
fn a_config_holds_path_text_and_imports() {
    let config = Config::new("root", Ok("include x\ninclude y\n".to_string())).unwrap();
    assert_eq!(config.path, "root");
    assert_eq!(config.contents, "include x\ninclude y\n");
    assert_eq!(config.imports, strings(&["x", "y"]));
    assert!(config == config.clone());
    assert!(config != Config::new("other", Ok("include x\ninclude y\n".to_string())).unwrap());
    assert!(config != Config::new("root", Ok("include x\ninclude y".to_string())).unwrap());
}

#[test]
fn a_failed_reading_is_the_error_of_the_config() {
    match Config::new("gone", Err(Error::from_io(true, "whatever".to_string()))) {
        Err(Error::ConfigNotFound) => {}
        other => panic!("{:?}", other),
    }
    match Config::new("locked", Err(Error::from_io(false, "Permission denied".to_string()))) {
        Err(Error::Io(reason)) => assert_eq!(reason, "Permission denied"),
        other => panic!("{:?}", other),
    }
    match Config::new("bad", Err(Error::InvalidConfig(ParseError::InvalidKeysym("p".to_string(), 2)))) {
        Err(Error::InvalidConfig(e)) => assert_eq!(e, ParseError::InvalidKeysym("p".to_string(), 2)),
        other => panic!("{:?}", other),
    }
}

#[test]
fn load_to_configs_builds_the_imported_files_in_order() {
    let config = Config::new("root", Ok("include a\ninclude b".to_string())).unwrap();
    let found = config
        .load_to_configs(vec![Ok("include c".to_string()), Ok("super + a".to_string())])
        .unwrap();
    assert_eq!(paths(&found), strings(&["a", "b"]));
    assert_eq!(found[0].imports, strings(&["c"]));
    assert_eq!(found[1].contents, "super + a");
    // The first failure wins.
    let outcome = config.load_to_configs(vec![
        Err(Error::from_io(false, "first".to_string())),
        Err(Error::from_io(true, "second".to_string())),
    ]);
    match outcome {
        Err(Error::Io(reason)) => assert_eq!(reason, "first"),
        other => panic!("{:?}", other),
    }
    let outcome =
        config.load_to_configs(vec![Ok(String::new()), Err(Error::from_io(true, String::new()))]);
    assert!(matches!(outcome, Err(Error::ConfigNotFound)));
    // Nothing is read after a failure, so the readings may stop there.
    let outcome = config.load_to_configs(vec![Err(Error::from_io(true, String::new()))]);
    assert!(matches!(outcome, Err(Error::ConfigNotFound)));
    // A file without imports needs no readings.
    let plain = Config::new("plain", Ok("super + a\n  ls".to_string())).unwrap();
    assert_eq!(plain.load_to_configs(Vec::new()).unwrap().len(), 0);
}

#[test]
fn the_closure_holds_every_file_once_in_the_order_found() {
    let files = [
        ("root", "include a\ninclude b\nsuper + r\n  r"),
        ("a", "include c\ninclude b"),
        ("b", "include a"),
        ("c", "include root\ninclude d"),
        ("d", ""),
        ("unused", "include nothing"),
    ];
    let configs = resolve(&files, "root").unwrap();
    assert_eq!(paths(&configs), strings(&["root", "a", "b", "c", "d"]));
    assert_eq!(configs[3].imports, strings(&["root", "d"]));
}

#[test]
fn a_file_that_imports_itself_is_there_once() {
    let files = [("root", "include root")];
    assert_eq!(paths(&resolve(&files, "root").unwrap()), strings(&["root"]));
    let files = [("root", "super + a\n  a")];
    assert_eq!(paths(&resolve(&files, "root").unwrap()), strings(&["root"]));
}

#[test]
fn a_missing_import_anywhere_ends_the_search_with_no_files() {
    // The missing file is three imports away from the root, the last import
    // of the last file found.
    let files = [
        ("root", "include a\ninclude b"),
        ("a", "include c"),
        ("b", ""),
        ("c", "include d\ninclude root"),
        ("d", "include a\ninclude gone\ninclude b"),
    ];
    assert!(matches!(resolve(&files, "root"), Err(Error::ConfigNotFound)));
    // With the file there, the same search finds everything.
    let files = [
        ("root", "include a\ninclude b"),
        ("a", "include c"),
        ("b", ""),
        ("c", "include d\ninclude root"),
        ("d", "include a\ninclude gone\ninclude b"),
        ("gone", ""),
    ];
    assert_eq!(
        paths(&resolve(&files, "root").unwrap()),
        strings(&["root", "a", "b", "c", "d", "gone"])
    );
}

#[test]
fn a_missing_file_ends_the_search() {
    assert!(matches!(resolve(&[], "root"), Err(Error::ConfigNotFound)));
    let files = [("root", "include a\ninclude gone"), ("a", "")];
    assert!(matches!(resolve(&files, "root"), Err(Error::ConfigNotFound)));
    let files = [("root", "include a"), ("a", "include b"), ("b", "include gone")];
    assert!(matches!(resolve(&files, "root"), Err(Error::ConfigNotFound)));
}

#[test]
fn a_search_over_nothing_has_ended() {
    let state = Resolver::new(Vec::new());
    assert!(state.current().is_none());
    let state = Config::load_and_merge(state, Vec::new()).unwrap();
    assert!(state.current().is_none());
    assert_eq!(state.into_configs().len(), 0);
}

#[test]
fn the_search_goes_pass_by_pass() {
    let root = Config::new("root", Ok("include a".to_string())).unwrap();
    let state = Resolver::new(vec![root]);
    assert_eq!(state.current().unwrap().path, "root");
    // First pass: root brings a.
    let state = Config::load_and_merge(state, vec![Ok("include root".to_string())]).unwrap();
    // Second pass starts again at root, then takes a.
    assert_eq!(state.current().unwrap().path, "root");
    let state = Config::load_and_merge(state, vec![Ok("include root".to_string())]).unwrap();
    assert_eq!(state.current().unwrap().path, "a");
    let state = Config::load_and_merge(state, vec![Ok("include a".to_string())]).unwrap();
    // Nothing was added in the second pass.
    assert!(state.current().is_none());
    assert_eq!(paths(&state.into_configs()), strings(&["root", "a"]));
}

#[test]
fn the_same_path_with_other_text_is_another_file() {
    let root = Config::new("root", Ok("include a".to_string())).unwrap();
    let state = Resolver::new(vec![root]);
    let state = Config::load_and_merge(state, vec![Ok("one".to_string())]).unwrap();
    let state = Config::load_and_merge(state, vec![Ok("two".to_string())]).unwrap();
    let configs = state.into_configs();
    assert_eq!(paths(&configs), strings(&["root", "a", "a"]));
    assert_eq!(configs[1].contents, "one");
    assert_eq!(configs[2].contents, "two");
}
