use hotkey_config::binding::{
    match_modifier, modifier_from_lowercase, parse_keybinding, KeyBinding, Modifier, Prefix, Value,
};
use hotkey_config::hotkey::Hotkey;
use hotkey_config::keysym::{keysym_from_lowercase, match_keysym, Key};
use hotkey_config::text::{char_is_whitespace, chars_of, string_of};

fn table() -> Vec<(&'static str, evdev::Key)> {
    vec![
        ("q", evdev::Key::KEY_Q),
        ("w", evdev::Key::KEY_W),
        ("e", evdev::Key::KEY_E),
        ("r", evdev::Key::KEY_R),
        ("t", evdev::Key::KEY_T),
        ("y", evdev::Key::KEY_Y),
        ("u", evdev::Key::KEY_U),
        ("i", evdev::Key::KEY_I),
        ("o", evdev::Key::KEY_O),
        ("p", evdev::Key::KEY_P),
        ("a", evdev::Key::KEY_A),
        ("s", evdev::Key::KEY_S),
        ("d", evdev::Key::KEY_D),
        ("f", evdev::Key::KEY_F),
        ("g", evdev::Key::KEY_G),
        ("h", evdev::Key::KEY_H),
        ("j", evdev::Key::KEY_J),
        ("k", evdev::Key::KEY_K),
        ("l", evdev::Key::KEY_L),
        ("z", evdev::Key::KEY_Z),
        ("x", evdev::Key::KEY_X),
        ("c", evdev::Key::KEY_C),
        ("v", evdev::Key::KEY_V),
        ("b", evdev::Key::KEY_B),
        ("n", evdev::Key::KEY_N),
        ("m", evdev::Key::KEY_M),
        ("1", evdev::Key::KEY_1),
        ("2", evdev::Key::KEY_2),
        ("3", evdev::Key::KEY_3),
        ("4", evdev::Key::KEY_4),
        ("5", evdev::Key::KEY_5),
        ("6", evdev::Key::KEY_6),
        ("7", evdev::Key::KEY_7),
        ("8", evdev::Key::KEY_8),
        ("9", evdev::Key::KEY_9),
        ("0", evdev::Key::KEY_0),
        ("escape", evdev::Key::KEY_ESC),
        ("backspace", evdev::Key::KEY_BACKSPACE),
        ("return", evdev::Key::KEY_ENTER),
        ("enter", evdev::Key::KEY_ENTER),
        ("tab", evdev::Key::KEY_TAB),
        ("space", evdev::Key::KEY_SPACE),
        ("plus", evdev::Key::KEY_KPPLUS),
        ("minus", evdev::Key::KEY_MINUS),
        ("-", evdev::Key::KEY_MINUS),
        ("equal", evdev::Key::KEY_EQUAL),
        ("=", evdev::Key::KEY_EQUAL),
        ("grave", evdev::Key::KEY_GRAVE),
        ("`", evdev::Key::KEY_GRAVE),
        ("print", evdev::Key::KEY_SYSRQ),
        ("volumeup", evdev::Key::KEY_VOLUMEUP),
        ("xf86audioraisevolume", evdev::Key::KEY_VOLUMEUP),
        ("volumedown", evdev::Key::KEY_VOLUMEDOWN),
        ("xf86audiolowervolume", evdev::Key::KEY_VOLUMEDOWN),
        ("mute", evdev::Key::KEY_MUTE),
        ("xf86audiomute", evdev::Key::KEY_MUTE),
        ("brightnessup", evdev::Key::KEY_BRIGHTNESSUP),
        ("xf86monbrightnessup", evdev::Key::KEY_BRIGHTNESSUP),
        ("brightnessdown", evdev::Key::KEY_BRIGHTNESSDOWN),
        ("xf86monbrightnessdown", evdev::Key::KEY_BRIGHTNESSDOWN),
        ("xf86audioplay", evdev::Key::KEY_PLAYPAUSE),
        ("xf86audioprev", evdev::Key::KEY_PREVIOUSSONG),
        ("xf86audionext", evdev::Key::KEY_NEXTSONG),
        ("xf86audiostop", evdev::Key::KEY_STOP),
        ("xf86audiomedia", evdev::Key::KEY_MEDIA),
        (",", evdev::Key::KEY_COMMA),
        ("comma", evdev::Key::KEY_COMMA),
        (".", evdev::Key::KEY_DOT),
        ("dot", evdev::Key::KEY_DOT),
        ("period", evdev::Key::KEY_DOT),
        ("/", evdev::Key::KEY_SLASH),
        ("question", evdev::Key::KEY_QUESTION),
        ("slash", evdev::Key::KEY_SLASH),
        ("backslash", evdev::Key::KEY_BACKSLASH),
        ("leftbrace", evdev::Key::KEY_LEFTBRACE),
        ("[", evdev::Key::KEY_LEFTBRACE),
        ("bracketleft", evdev::Key::KEY_LEFTBRACE),
        ("rightbrace", evdev::Key::KEY_RIGHTBRACE),
        ("]", evdev::Key::KEY_RIGHTBRACE),
        ("bracketright", evdev::Key::KEY_RIGHTBRACE),
        (";", evdev::Key::KEY_SEMICOLON),
        ("semicolon", evdev::Key::KEY_SEMICOLON),
        ("'", evdev::Key::KEY_APOSTROPHE),
        ("apostrophe", evdev::Key::KEY_APOSTROPHE),
        ("left", evdev::Key::KEY_LEFT),
        ("right", evdev::Key::KEY_RIGHT),
        ("up", evdev::Key::KEY_UP),
        ("down", evdev::Key::KEY_DOWN),
        ("pause", evdev::Key::KEY_PAUSE),
        ("home", evdev::Key::KEY_HOME),
        ("delete", evdev::Key::KEY_DELETE),
        ("insert", evdev::Key::KEY_INSERT),
        ("end", evdev::Key::KEY_END),
        ("prior", evdev::Key::KEY_PAGEDOWN),
        ("next", evdev::Key::KEY_PAGEUP),
        ("pagedown", evdev::Key::KEY_PAGEDOWN),
        ("pageup", evdev::Key::KEY_PAGEUP),
        ("f1", evdev::Key::KEY_F1),
        ("f2", evdev::Key::KEY_F2),
        ("f3", evdev::Key::KEY_F3),
        ("f4", evdev::Key::KEY_F4),
        ("f5", evdev::Key::KEY_F5),
        ("f6", evdev::Key::KEY_F6),
        ("f7", evdev::Key::KEY_F7),
        ("f8", evdev::Key::KEY_F8),
        ("f9", evdev::Key::KEY_F9),
        ("f10", evdev::Key::KEY_F10),
        ("f11", evdev::Key::KEY_F11),
        ("f12", evdev::Key::KEY_F12),
        ("f13", evdev::Key::KEY_F13),
        ("f14", evdev::Key::KEY_F14),
        ("f15", evdev::Key::KEY_F15),
        ("f16", evdev::Key::KEY_F16),
        ("f17", evdev::Key::KEY_F17),
        ("f18", evdev::Key::KEY_F18),
        ("f19", evdev::Key::KEY_F19),
        ("f20", evdev::Key::KEY_F20),
        ("f21", evdev::Key::KEY_F21),
        ("f22", evdev::Key::KEY_F22),
        ("f23", evdev::Key::KEY_F23),
        ("f24", evdev::Key::KEY_F24),
    ]
}

#[test]
fn every_name_gives_the_key_of_that_name() {
    for (name, expected) in table() {
        assert_eq!(match_keysym(name), Some(Key::new(expected.code())), "for {:?}", name);
        assert_eq!(keysym_from_lowercase(name), Some(Key::new(expected.code())));
    }
    assert_eq!(table().len(), 121);
}

#[test]
fn names_of_keys_ignore_case() {
    for (name, expected) in table() {
        let upper = name.to_uppercase();
        assert_eq!(match_keysym(&upper), Some(Key::new(expected.code())), "for {:?}", upper);
    }
    assert_eq!(match_keysym("XF86AudioRaiseVolume"), Some(Key::new(evdev::Key::KEY_VOLUMEUP.code())));
    assert_eq!(match_keysym("Return"), Some(Key::new(evdev::Key::KEY_ENTER.code())));
    // The lower-case form decides, so the Kelvin sign is the letter k.
    assert_eq!(match_keysym("\u{212a}"), Some(Key::new(evdev::Key::KEY_K.code())));
    assert_eq!(keysym_from_lowercase("\u{212a}"), None);
    assert_eq!(keysym_from_lowercase("Q"), None);
}

#[test]
fn other_names_give_no_key() {
    for name in ["", " ", "qq", "f0", "f25", "ff", "ctrl", "super", "a ", " a", "@a", "~a", "+", "é", "key_q"] {
        assert_eq!(match_keysym(name), None, "for {:?}", name);
    }
}

#[test]
fn a_key_is_its_code() {
    assert_eq!(Key::new(30).code(), 30);
    assert_eq!(Key::new(evdev::Key::KEY_A.code()), Key(30));
    assert_eq!(evdev::Key::new(match_keysym("f24").unwrap().code()), evdev::Key::KEY_F24);
}

#[test]
fn modifiers_have_these_names() {
    assert_eq!(match_modifier("super"), Some(Modifier::Super));
    assert_eq!(match_modifier("mod4"), Some(Modifier::Super));
    assert_eq!(match_modifier("alt"), Some(Modifier::Alt));
    assert_eq!(match_modifier("mod1"), Some(Modifier::Alt));
    assert_eq!(match_modifier("control"), Some(Modifier::Control));
    assert_eq!(match_modifier("ctrl"), Some(Modifier::Control));
    assert_eq!(match_modifier("shift"), Some(Modifier::Shift));
    assert_eq!(match_modifier("SUPER"), Some(Modifier::Super));
    assert_eq!(match_modifier("Ctrl"), Some(Modifier::Control));
    assert_eq!(match_modifier("sHiFt"), Some(Modifier::Shift));
    assert_eq!(modifier_from_lowercase("shift"), Some(Modifier::Shift));
    assert_eq!(modifier_from_lowercase("Shift"), None);
    for name in ["", "hyper", "mod2", "shift ", " alt", "a", "meta"] {
        assert_eq!(match_modifier(name), None, "for {:?}", name);
    }
}

#[test]
fn whitespace_is_what_the_standard_library_calls_whitespace() {
    for code in 0..=0x10ffffu32 {
        if let Some(c) = char::from_u32(code) {
            assert_eq!(char_is_whitespace(c), c.is_whitespace(), "for U+{:04X}", code);
        }
    }
}

#[test]
fn text_goes_to_characters_and_back() {
    for text in ["", "a", "super + a", "ß∂é\u{1F600}", "\t x \n"] {
        let chars = chars_of(text);
        assert_eq!(chars, text.chars().collect::<Vec<char>>());
        assert_eq!(string_of(&chars), text);
    }
}

#[test]
fn bindings_compare_their_modifiers_without_order() {
    let a = KeyBinding::new(Key::new(30), vec![Modifier::Super, Modifier::Shift]);
    let b = KeyBinding::new(Key::new(30), vec![Modifier::Shift, Modifier::Super]);
    assert_eq!(a, b);
    assert_eq!(b, a);
    assert_eq!(a.clone(), a);
    assert_ne!(a, KeyBinding::new(Key::new(31), vec![Modifier::Super, Modifier::Shift]));
    assert_ne!(a, KeyBinding::new(Key::new(30), vec![Modifier::Super]));
    assert_ne!(a, KeyBinding::new(Key::new(30), vec![Modifier::Super, Modifier::Alt]));
    assert_ne!(a, KeyBinding::new(Key::new(30), vec![Modifier::Super, Modifier::Shift, Modifier::Alt]));
    assert_ne!(a.clone(), a.clone().send());
    assert_ne!(a.clone(), a.clone().on_release());
    assert_eq!(a.clone().send().on_release(), b.clone().on_release().send());
    assert_eq!(KeyBinding::new(Key::new(1), vec![]), KeyBinding::new(Key::new(1), vec![]));
}

#[test]
fn equality_compares_the_sets_of_modifiers() {
    let twice = KeyBinding::new(Key::new(30), vec![Modifier::Super, Modifier::Super]);
    let both = KeyBinding::new(Key::new(30), vec![Modifier::Super, Modifier::Shift]);
    let once = KeyBinding::new(Key::new(30), vec![Modifier::Super]);
    // A modifier listed twice counts once.
    assert!(twice == once);
    assert!(once == twice);
    // Other sets are other bindings, whichever side is asked.
    assert!(twice != both);
    assert!(both != twice);
    assert!(once != both);
    assert!(both != once);
    let long = KeyBinding::new(
        Key::new(30),
        vec![Modifier::Shift, Modifier::Super, Modifier::Shift, Modifier::Super],
    );
    assert!(long == both);
    assert!(both == long);
    assert!(long != once);
}

#[test]
fn a_modifier_named_twice_gives_the_same_binding() {
    let twice = parse_keybinding("super + super + a", 1, String::new()).unwrap();
    let once = parse_keybinding("mod4 + a", 1, String::new()).unwrap();
    let other = parse_keybinding("super + shift + a", 1, String::new()).unwrap();
    assert_eq!(twice.modifiers, vec![Modifier::Super, Modifier::Super]);
    assert!(twice == once && once == twice);
    assert!(twice != other && other != twice);
}

#[test]
fn a_binding_can_be_read_and_its_flags_set() {
    let binding = KeyBinding::new(Key::new(48), vec![Modifier::Alt, Modifier::Control]);
    assert_eq!(binding.keysym(), Key::new(48));
    assert_eq!(binding.modifiers(), vec![Modifier::Alt, Modifier::Control]);
    assert!(!binding.is_send());
    assert!(!binding.is_on_release());
    let binding = binding.send();
    assert!(binding.is_send() && !binding.is_on_release());
    let binding = binding.on_release();
    assert!(binding.is_send() && binding.is_on_release());
    assert_eq!(binding.keysym(), Key::new(48));
    assert_eq!(binding.modifiers(), vec![Modifier::Alt, Modifier::Control]);
}

#[test]
fn a_hotkey_can_be_read_and_its_flags_set() {
    let hotkey = Hotkey::new(Key::new(48), vec![Modifier::Shift], "ls".to_string());
    assert_eq!(
        hotkey,
        Hotkey::from_keybinding(KeyBinding::new(Key::new(48), vec![Modifier::Shift]), "ls".to_string())
    );
    assert_eq!((&hotkey).keysym(), Key::new(48));
    assert_eq!((&hotkey).modifiers(), vec![Modifier::Shift]);
    assert!(!(&hotkey).is_send() && !(&hotkey).is_on_release());
    let hotkey = hotkey.on_release();
    assert!(!(&hotkey).is_send() && (&hotkey).is_on_release());
    let hotkey = hotkey.send();
    assert!((&hotkey).is_send() && (&hotkey).is_on_release());
    assert_eq!(hotkey.command, "ls");
    assert_eq!(hotkey.clone(), hotkey);
    assert_ne!(hotkey, Hotkey::new(Key::new(48), vec![Modifier::Shift], "ls".to_string()));
}
