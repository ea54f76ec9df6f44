//! Key identifiers and the names by which a configuration refers to them.
//!
//! A key is identified by its Linux input event code, the number the kernel
//! reports for it. The constants below carry the kernel's names.
use crate::text::{chars_of, equals_str, lowercase};
use vstd::prelude::*;

verus! {

/// A key of a keyboard, identified by its input event code.
#[derive(Debug, Clone, Copy, PartialEq, Eq, Hash, Structural)]
pub struct Key(pub u16);

impl Key {
    /// The key with the given event code.
    pub fn new(code: u16) -> (key: Key)
        ensures
            key == Key(code),
    {
        Key(code)
    }

    /// The event code of the key.
    pub fn code(self) -> (code: u16)
        ensures
            code == self.0,
    {
        self.0
    }
}

pub const KEY_ESC: u16 = 1;

pub const KEY_1: u16 = 2;

pub const KEY_2: u16 = 3;

pub const KEY_3: u16 = 4;

pub const KEY_4: u16 = 5;

pub const KEY_5: u16 = 6;

pub const KEY_6: u16 = 7;

pub const KEY_7: u16 = 8;

pub const KEY_8: u16 = 9;

pub const KEY_9: u16 = 10;

pub const KEY_0: u16 = 11;

pub const KEY_MINUS: u16 = 12;

pub const KEY_EQUAL: u16 = 13;

pub const KEY_BACKSPACE: u16 = 14;

pub const KEY_TAB: u16 = 15;

pub const KEY_Q: u16 = 16;

pub const KEY_W: u16 = 17;

pub const KEY_E: u16 = 18;

pub const KEY_R: u16 = 19;

pub const KEY_T: u16 = 20;

pub const KEY_Y: u16 = 21;

pub const KEY_U: u16 = 22;

pub const KEY_I: u16 = 23;

pub const KEY_O: u16 = 24;

pub const KEY_P: u16 = 25;

pub const KEY_LEFTBRACE: u16 = 26;

pub const KEY_RIGHTBRACE: u16 = 27;

pub const KEY_ENTER: u16 = 28;

pub const KEY_A: u16 = 30;

pub const KEY_S: u16 = 31;

pub const KEY_D: u16 = 32;

pub const KEY_F: u16 = 33;

pub const KEY_G: u16 = 34;

pub const KEY_H: u16 = 35;

pub const KEY_J: u16 = 36;

pub const KEY_K: u16 = 37;

pub const KEY_L: u16 = 38;

pub const KEY_SEMICOLON: u16 = 39;

pub const KEY_APOSTROPHE: u16 = 40;

pub const KEY_GRAVE: u16 = 41;

pub const KEY_BACKSLASH: u16 = 43;

pub const KEY_Z: u16 = 44;

pub const KEY_X: u16 = 45;

pub const KEY_C: u16 = 46;

pub const KEY_V: u16 = 47;

pub const KEY_B: u16 = 48;

pub const KEY_N: u16 = 49;

pub const KEY_M: u16 = 50;

pub const KEY_COMMA: u16 = 51;

pub const KEY_DOT: u16 = 52;

pub const KEY_SLASH: u16 = 53;

pub const KEY_SPACE: u16 = 57;

pub const KEY_F1: u16 = 59;

pub const KEY_F2: u16 = 60;

pub const KEY_F3: u16 = 61;

pub const KEY_F4: u16 = 62;

pub const KEY_F5: u16 = 63;

pub const KEY_F6: u16 = 64;

pub const KEY_F7: u16 = 65;

pub const KEY_F8: u16 = 66;

pub const KEY_F9: u16 = 67;

pub const KEY_F10: u16 = 68;

pub const KEY_KPPLUS: u16 = 78;

pub const KEY_F11: u16 = 87;

pub const KEY_F12: u16 = 88;

pub const KEY_SYSRQ: u16 = 99;

pub const KEY_HOME: u16 = 102;

pub const KEY_UP: u16 = 103;

pub const KEY_PAGEUP: u16 = 104;

pub const KEY_LEFT: u16 = 105;

pub const KEY_RIGHT: u16 = 106;

pub const KEY_END: u16 = 107;

pub const KEY_DOWN: u16 = 108;

pub const KEY_PAGEDOWN: u16 = 109;

pub const KEY_INSERT: u16 = 110;

pub const KEY_DELETE: u16 = 111;

pub const KEY_MUTE: u16 = 113;

pub const KEY_VOLUMEDOWN: u16 = 114;

pub const KEY_VOLUMEUP: u16 = 115;

pub const KEY_PAUSE: u16 = 119;

pub const KEY_STOP: u16 = 128;

pub const KEY_NEXTSONG: u16 = 163;

pub const KEY_PLAYPAUSE: u16 = 164;

pub const KEY_PREVIOUSSONG: u16 = 165;

pub const KEY_F13: u16 = 183;

pub const KEY_F14: u16 = 184;

pub const KEY_F15: u16 = 185;

pub const KEY_F16: u16 = 186;

pub const KEY_F17: u16 = 187;

pub const KEY_F18: u16 = 188;

pub const KEY_F19: u16 = 189;

pub const KEY_F20: u16 = 190;

pub const KEY_F21: u16 = 191;

pub const KEY_F22: u16 = 192;

pub const KEY_F23: u16 = 193;

pub const KEY_F24: u16 = 194;

pub const KEY_QUESTION: u16 = 214;

pub const KEY_BRIGHTNESSDOWN: u16 = 224;

pub const KEY_BRIGHTNESSUP: u16 = 225;

pub const KEY_MEDIA: u16 = 226;

/// A letter or digit key, by its character.
pub open spec fn character_key(name: Seq<char>) -> Option<Key> {
    if name == "q"@ {
        Some(Key(KEY_Q))
    }     else if name == "w"@ {
        Some(Key(KEY_W))
    }     else if name == "e"@ {
        Some(Key(KEY_E))
    }     else if name == "r"@ {
        Some(Key(KEY_R))
    }     else if name == "t"@ {
        Some(Key(KEY_T))
    }     else if name == "y"@ {
        Some(Key(KEY_Y))
    }     else if name == "u"@ {
        Some(Key(KEY_U))
    }     else if name == "i"@ {
        Some(Key(KEY_I))
    }     else if name == "o"@ {
        Some(Key(KEY_O))
    }     else if name == "p"@ {
        Some(Key(KEY_P))
    }     else if name == "a"@ {
        Some(Key(KEY_A))
    }     else if name == "s"@ {
        Some(Key(KEY_S))
    }     else if name == "d"@ {
        Some(Key(KEY_D))
    }     else if name == "f"@ {
        Some(Key(KEY_F))
    }     else if name == "g"@ {
        Some(Key(KEY_G))
    }     else if name == "h"@ {
        Some(Key(KEY_H))
    }     else if name == "j"@ {
        Some(Key(KEY_J))
    }     else if name == "k"@ {
        Some(Key(KEY_K))
    }     else if name == "l"@ {
        Some(Key(KEY_L))
    }     else if name == "z"@ {
        Some(Key(KEY_Z))
    }     else if name == "x"@ {
        Some(Key(KEY_X))
    }     else if name == "c"@ {
        Some(Key(KEY_C))
    }     else if name == "v"@ {
        Some(Key(KEY_V))
    }     else if name == "b"@ {
        Some(Key(KEY_B))
    }     else if name == "n"@ {
        Some(Key(KEY_N))
    }     else if name == "m"@ {
        Some(Key(KEY_M))
    }     else if name == "1"@ {
        Some(Key(KEY_1))
    }     else if name == "2"@ {
        Some(Key(KEY_2))
    }     else if name == "3"@ {
        Some(Key(KEY_3))
    }     else if name == "4"@ {
        Some(Key(KEY_4))
    }     else if name == "5"@ {
        Some(Key(KEY_5))
    }     else if name == "6"@ {
        Some(Key(KEY_6))
    }     else if name == "7"@ {
        Some(Key(KEY_7))
    }     else if name == "8"@ {
        Some(Key(KEY_8))
    }     else if name == "9"@ {
        Some(Key(KEY_9))
    }     else if name == "0"@ {
        Some(Key(KEY_0))
    } else {
        None
    }
}

/// An editing or symbol key of the main block.
pub open spec fn editing_key(name: Seq<char>) -> Option<Key> {
    if name == "escape"@ {
        Some(Key(KEY_ESC))
    }     else if name == "backspace"@ {
        Some(Key(KEY_BACKSPACE))
    }     else if name == "return"@ {
        Some(Key(KEY_ENTER))
    }     else if name == "enter"@ {
        Some(Key(KEY_ENTER))
    }     else if name == "tab"@ {
        Some(Key(KEY_TAB))
    }     else if name == "space"@ {
        Some(Key(KEY_SPACE))
    }     else if name == "plus"@ {
        Some(Key(KEY_KPPLUS))
    }     else if name == "minus"@ {
        Some(Key(KEY_MINUS))
    }     else if name == "-"@ {
        Some(Key(KEY_MINUS))
    }     else if name == "equal"@ {
        Some(Key(KEY_EQUAL))
    }     else if name == "="@ {
        Some(Key(KEY_EQUAL))
    }     else if name == "grave"@ {
        Some(Key(KEY_GRAVE))
    }     else if name == "`"@ {
        Some(Key(KEY_GRAVE))
    }     else if name == "print"@ {
        Some(Key(KEY_SYSRQ))
    } else {
        None
    }
}

/// A volume, brightness or playback key.
pub open spec fn media_key(name: Seq<char>) -> Option<Key> {
    if name == "volumeup"@ {
        Some(Key(KEY_VOLUMEUP))
    }     else if name == "xf86audioraisevolume"@ {
        Some(Key(KEY_VOLUMEUP))
    }     else if name == "volumedown"@ {
        Some(Key(KEY_VOLUMEDOWN))
    }     else if name == "xf86audiolowervolume"@ {
        Some(Key(KEY_VOLUMEDOWN))
    }     else if name == "mute"@ {
        Some(Key(KEY_MUTE))
    }     else if name == "xf86audiomute"@ {
        Some(Key(KEY_MUTE))
    }     else if name == "brightnessup"@ {
        Some(Key(KEY_BRIGHTNESSUP))
    }     else if name == "xf86monbrightnessup"@ {
        Some(Key(KEY_BRIGHTNESSUP))
    }     else if name == "brightnessdown"@ {
        Some(Key(KEY_BRIGHTNESSDOWN))
    }     else if name == "xf86monbrightnessdown"@ {
        Some(Key(KEY_BRIGHTNESSDOWN))
    }     else if name == "xf86audioplay"@ {
        Some(Key(KEY_PLAYPAUSE))
    }     else if name == "xf86audioprev"@ {
        Some(Key(KEY_PREVIOUSSONG))
    }     else if name == "xf86audionext"@ {
        Some(Key(KEY_NEXTSONG))
    }     else if name == "xf86audiostop"@ {
        Some(Key(KEY_STOP))
    }     else if name == "xf86audiomedia"@ {
        Some(Key(KEY_MEDIA))
    } else {
        None
    }
}

/// A punctuation key, by its character or its name.
pub open spec fn punctuation_key(name: Seq<char>) -> Option<Key> {
    if name == ","@ {
        Some(Key(KEY_COMMA))
    }     else if name == "comma"@ {
        Some(Key(KEY_COMMA))
    }     else if name == "."@ {
        Some(Key(KEY_DOT))
    }     else if name == "dot"@ {
        Some(Key(KEY_DOT))
    }     else if name == "period"@ {
        Some(Key(KEY_DOT))
    }     else if name == "/"@ {
        Some(Key(KEY_SLASH))
    }     else if name == "question"@ {
        Some(Key(KEY_QUESTION))
    }     else if name == "slash"@ {
        Some(Key(KEY_SLASH))
    }     else if name == "backslash"@ {
        Some(Key(KEY_BACKSLASH))
    }     else if name == "leftbrace"@ {
        Some(Key(KEY_LEFTBRACE))
    }     else if name == "["@ {
        Some(Key(KEY_LEFTBRACE))
    }     else if name == "bracketleft"@ {
        Some(Key(KEY_LEFTBRACE))
    }     else if name == "rightbrace"@ {
        Some(Key(KEY_RIGHTBRACE))
    }     else if name == "]"@ {
        Some(Key(KEY_RIGHTBRACE))
    }     else if name == "bracketright"@ {
        Some(Key(KEY_RIGHTBRACE))
    }     else if name == ";"@ {
        Some(Key(KEY_SEMICOLON))
    }     else if name == "semicolon"@ {
        Some(Key(KEY_SEMICOLON))
    }     else if name == "'"@ {
        Some(Key(KEY_APOSTROPHE))
    }     else if name == "apostrophe"@ {
        Some(Key(KEY_APOSTROPHE))
    } else {
        None
    }
}

/// A cursor or paging key.
pub open spec fn navigation_key(name: Seq<char>) -> Option<Key> {
    if name == "left"@ {
        Some(Key(KEY_LEFT))
    }     else if name == "right"@ {
        Some(Key(KEY_RIGHT))
    }     else if name == "up"@ {
        Some(Key(KEY_UP))
    }     else if name == "down"@ {
        Some(Key(KEY_DOWN))
    }     else if name == "pause"@ {
        Some(Key(KEY_PAUSE))
    }     else if name == "home"@ {
        Some(Key(KEY_HOME))
    }     else if name == "delete"@ {
        Some(Key(KEY_DELETE))
    }     else if name == "insert"@ {
        Some(Key(KEY_INSERT))
    }     else if name == "end"@ {
        Some(Key(KEY_END))
    }     else if name == "prior"@ {
        Some(Key(KEY_PAGEDOWN))
    }     else if name == "next"@ {
        Some(Key(KEY_PAGEUP))
    }     else if name == "pagedown"@ {
        Some(Key(KEY_PAGEDOWN))
    }     else if name == "pageup"@ {
        Some(Key(KEY_PAGEUP))
    } else {
        None
    }
}

/// One of the function keys F1 to F24.
pub open spec fn function_key(name: Seq<char>) -> Option<Key> {
    if name == "f1"@ {
        Some(Key(KEY_F1))
    }     else if name == "f2"@ {
        Some(Key(KEY_F2))
    }     else if name == "f3"@ {
        Some(Key(KEY_F3))
    }     else if name == "f4"@ {
        Some(Key(KEY_F4))
    }     else if name == "f5"@ {
        Some(Key(KEY_F5))
    }     else if name == "f6"@ {
        Some(Key(KEY_F6))
    }     else if name == "f7"@ {
        Some(Key(KEY_F7))
    }     else if name == "f8"@ {
        Some(Key(KEY_F8))
    }     else if name == "f9"@ {
        Some(Key(KEY_F9))
    }     else if name == "f10"@ {
        Some(Key(KEY_F10))
    }     else if name == "f11"@ {
        Some(Key(KEY_F11))
    }     else if name == "f12"@ {
        Some(Key(KEY_F12))
    }     else if name == "f13"@ {
        Some(Key(KEY_F13))
    }     else if name == "f14"@ {
        Some(Key(KEY_F14))
    }     else if name == "f15"@ {
        Some(Key(KEY_F15))
    }     else if name == "f16"@ {
        Some(Key(KEY_F16))
    }     else if name == "f17"@ {
        Some(Key(KEY_F17))
    }     else if name == "f18"@ {
        Some(Key(KEY_F18))
    }     else if name == "f19"@ {
        Some(Key(KEY_F19))
    }     else if name == "f20"@ {
        Some(Key(KEY_F20))
    }     else if name == "f21"@ {
        Some(Key(KEY_F21))
    }     else if name == "f22"@ {
        Some(Key(KEY_F22))
    }     else if name == "f23"@ {
        Some(Key(KEY_F23))
    }     else if name == "f24"@ {
        Some(Key(KEY_F24))
    } else {
        None
    }
}

/// The key that a lower-case name stands for, if it is the name of a key.
pub open spec fn keysym_named(name: Seq<char>) -> Option<Key> {
    if character_key(name) is Some {
        character_key(name)
    } else if editing_key(name) is Some {
        editing_key(name)
    } else if media_key(name) is Some {
        media_key(name)
    } else if punctuation_key(name) is Some {
        punctuation_key(name)
    } else if navigation_key(name) is Some {
        navigation_key(name)
    } else {
        function_key(name)
    }
}

fn find_character_key(name: &Vec<char>) -> (key: Option<Key>)
    ensures
        key == character_key(name@),
{
    if equals_str(name, "q") {
        Some(Key(KEY_Q))
    }     else if equals_str(name, "w") {
        Some(Key(KEY_W))
    }     else if equals_str(name, "e") {
        Some(Key(KEY_E))
    }     else if equals_str(name, "r") {
        Some(Key(KEY_R))
    }     else if equals_str(name, "t") {
        Some(Key(KEY_T))
    }     else if equals_str(name, "y") {
        Some(Key(KEY_Y))
    }     else if equals_str(name, "u") {
        Some(Key(KEY_U))
    }     else if equals_str(name, "i") {
        Some(Key(KEY_I))
    }     else if equals_str(name, "o") {
        Some(Key(KEY_O))
    }     else if equals_str(name, "p") {
        Some(Key(KEY_P))
    }     else if equals_str(name, "a") {
        Some(Key(KEY_A))
    }     else if equals_str(name, "s") {
        Some(Key(KEY_S))
    }     else if equals_str(name, "d") {
        Some(Key(KEY_D))
    }     else if equals_str(name, "f") {
        Some(Key(KEY_F))
    }     else if equals_str(name, "g") {
        Some(Key(KEY_G))
    }     else if equals_str(name, "h") {
        Some(Key(KEY_H))
    }     else if equals_str(name, "j") {
        Some(Key(KEY_J))
    }     else if equals_str(name, "k") {
        Some(Key(KEY_K))
    }     else if equals_str(name, "l") {
        Some(Key(KEY_L))
    }     else if equals_str(name, "z") {
        Some(Key(KEY_Z))
    }     else if equals_str(name, "x") {
        Some(Key(KEY_X))
    }     else if equals_str(name, "c") {
        Some(Key(KEY_C))
    }     else if equals_str(name, "v") {
        Some(Key(KEY_V))
    }     else if equals_str(name, "b") {
        Some(Key(KEY_B))
    }     else if equals_str(name, "n") {
        Some(Key(KEY_N))
    }     else if equals_str(name, "m") {
        Some(Key(KEY_M))
    }     else if equals_str(name, "1") {
        Some(Key(KEY_1))
    }     else if equals_str(name, "2") {
        Some(Key(KEY_2))
    }     else if equals_str(name, "3") {
        Some(Key(KEY_3))
    }     else if equals_str(name, "4") {
        Some(Key(KEY_4))
    }     else if equals_str(name, "5") {
        Some(Key(KEY_5))
    }     else if equals_str(name, "6") {
        Some(Key(KEY_6))
    }     else if equals_str(name, "7") {
        Some(Key(KEY_7))
    }     else if equals_str(name, "8") {
        Some(Key(KEY_8))
    }     else if equals_str(name, "9") {
        Some(Key(KEY_9))
    }     else if equals_str(name, "0") {
        Some(Key(KEY_0))
    } else {
        None
    }
}

fn find_editing_key(name: &Vec<char>) -> (key: Option<Key>)
    ensures
        key == editing_key(name@),
{
    if equals_str(name, "escape") {
        Some(Key(KEY_ESC))
    }     else if equals_str(name, "backspace") {
        Some(Key(KEY_BACKSPACE))
    }     else if equals_str(name, "return") {
        Some(Key(KEY_ENTER))
    }     else if equals_str(name, "enter") {
        Some(Key(KEY_ENTER))
    }     else if equals_str(name, "tab") {
        Some(Key(KEY_TAB))
    }     else if equals_str(name, "space") {
        Some(Key(KEY_SPACE))
    }     else if equals_str(name, "plus") {
        Some(Key(KEY_KPPLUS))
    }     else if equals_str(name, "minus") {
        Some(Key(KEY_MINUS))
    }     else if equals_str(name, "-") {
        Some(Key(KEY_MINUS))
    }     else if equals_str(name, "equal") {
        Some(Key(KEY_EQUAL))
    }     else if equals_str(name, "=") {
        Some(Key(KEY_EQUAL))
    }     else if equals_str(name, "grave") {
        Some(Key(KEY_GRAVE))
    }     else if equals_str(name, "`") {
        Some(Key(KEY_GRAVE))
    }     else if equals_str(name, "print") {
        Some(Key(KEY_SYSRQ))
    } else {
        None
    }
}

fn find_media_key(name: &Vec<char>) -> (key: Option<Key>)
    ensures
        key == media_key(name@),
{
    if equals_str(name, "volumeup") {
        Some(Key(KEY_VOLUMEUP))
    }     else if equals_str(name, "xf86audioraisevolume") {
        Some(Key(KEY_VOLUMEUP))
    }     else if equals_str(name, "volumedown") {
        Some(Key(KEY_VOLUMEDOWN))
    }     else if equals_str(name, "xf86audiolowervolume") {
        Some(Key(KEY_VOLUMEDOWN))
    }     else if equals_str(name, "mute") {
        Some(Key(KEY_MUTE))
    }     else if equals_str(name, "xf86audiomute") {
        Some(Key(KEY_MUTE))
    }     else if equals_str(name, "brightnessup") {
        Some(Key(KEY_BRIGHTNESSUP))
    }     else if equals_str(name, "xf86monbrightnessup") {
        Some(Key(KEY_BRIGHTNESSUP))
    }     else if equals_str(name, "brightnessdown") {
        Some(Key(KEY_BRIGHTNESSDOWN))
    }     else if equals_str(name, "xf86monbrightnessdown") {
        Some(Key(KEY_BRIGHTNESSDOWN))
    }     else if equals_str(name, "xf86audioplay") {
        Some(Key(KEY_PLAYPAUSE))
    }     else if equals_str(name, "xf86audioprev") {
        Some(Key(KEY_PREVIOUSSONG))
    }     else if equals_str(name, "xf86audionext") {
        Some(Key(KEY_NEXTSONG))
    }     else if equals_str(name, "xf86audiostop") {
        Some(Key(KEY_STOP))
    }     else if equals_str(name, "xf86audiomedia") {
        Some(Key(KEY_MEDIA))
    } else {
        None
    }
}

fn find_punctuation_key(name: &Vec<char>) -> (key: Option<Key>)
    ensures
        key == punctuation_key(name@),
{
    if equals_str(name, ",") {
        Some(Key(KEY_COMMA))
    }     else if equals_str(name, "comma") {
        Some(Key(KEY_COMMA))
    }     else if equals_str(name, ".") {
        Some(Key(KEY_DOT))
    }     else if equals_str(name, "dot") {
        Some(Key(KEY_DOT))
    }     else if equals_str(name, "period") {
        Some(Key(KEY_DOT))
    }     else if equals_str(name, "/") {
        Some(Key(KEY_SLASH))
    }     else if equals_str(name, "question") {
        Some(Key(KEY_QUESTION))
    }     else if equals_str(name, "slash") {
        Some(Key(KEY_SLASH))
    }     else if equals_str(name, "backslash") {
        Some(Key(KEY_BACKSLASH))
    }     else if equals_str(name, "leftbrace") {
        Some(Key(KEY_LEFTBRACE))
    }     else if equals_str(name, "[") {
        Some(Key(KEY_LEFTBRACE))
    }     else if equals_str(name, "bracketleft") {
        Some(Key(KEY_LEFTBRACE))
    }     else if equals_str(name, "rightbrace") {
        Some(Key(KEY_RIGHTBRACE))
    }     else if equals_str(name, "]") {
        Some(Key(KEY_RIGHTBRACE))
    }     else if equals_str(name, "bracketright") {
        Some(Key(KEY_RIGHTBRACE))
    }     else if equals_str(name, ";") {
        Some(Key(KEY_SEMICOLON))
    }     else if equals_str(name, "semicolon") {
        Some(Key(KEY_SEMICOLON))
    }     else if equals_str(name, "'") {
        Some(Key(KEY_APOSTROPHE))
    }     else if equals_str(name, "apostrophe") {
        Some(Key(KEY_APOSTROPHE))
    } else {
        None
    }
}

fn find_navigation_key(name: &Vec<char>) -> (key: Option<Key>)
    ensures
        key == navigation_key(name@),
{
    if equals_str(name, "left") {
        Some(Key(KEY_LEFT))
    }     else if equals_str(name, "right") {
        Some(Key(KEY_RIGHT))
    }     else if equals_str(name, "up") {
        Some(Key(KEY_UP))
    }     else if equals_str(name, "down") {
        Some(Key(KEY_DOWN))
    }     else if equals_str(name, "pause") {
        Some(Key(KEY_PAUSE))
    }     else if equals_str(name, "home") {
        Some(Key(KEY_HOME))
    }     else if equals_str(name, "delete") {
        Some(Key(KEY_DELETE))
    }     else if equals_str(name, "insert") {
        Some(Key(KEY_INSERT))
    }     else if equals_str(name, "end") {
        Some(Key(KEY_END))
    }     else if equals_str(name, "prior") {
        Some(Key(KEY_PAGEDOWN))
    }     else if equals_str(name, "next") {
        Some(Key(KEY_PAGEUP))
    }     else if equals_str(name, "pagedown") {
        Some(Key(KEY_PAGEDOWN))
    }     else if equals_str(name, "pageup") {
        Some(Key(KEY_PAGEUP))
    } else {
        None
    }
}

fn find_function_key(name: &Vec<char>) -> (key: Option<Key>)
    ensures
        key == function_key(name@),
{
    if equals_str(name, "f1") {
        Some(Key(KEY_F1))
    }     else if equals_str(name, "f2") {
        Some(Key(KEY_F2))
    }     else if equals_str(name, "f3") {
        Some(Key(KEY_F3))
    }     else if equals_str(name, "f4") {
        Some(Key(KEY_F4))
    }     else if equals_str(name, "f5") {
        Some(Key(KEY_F5))
    }     else if equals_str(name, "f6") {
        Some(Key(KEY_F6))
    }     else if equals_str(name, "f7") {
        Some(Key(KEY_F7))
    }     else if equals_str(name, "f8") {
        Some(Key(KEY_F8))
    }     else if equals_str(name, "f9") {
        Some(Key(KEY_F9))
    }     else if equals_str(name, "f10") {
        Some(Key(KEY_F10))
    }     else if equals_str(name, "f11") {
        Some(Key(KEY_F11))
    }     else if equals_str(name, "f12") {
        Some(Key(KEY_F12))
    }     else if equals_str(name, "f13") {
        Some(Key(KEY_F13))
    }     else if equals_str(name, "f14") {
        Some(Key(KEY_F14))
    }     else if equals_str(name, "f15") {
        Some(Key(KEY_F15))
    }     else if equals_str(name, "f16") {
        Some(Key(KEY_F16))
    }     else if equals_str(name, "f17") {
        Some(Key(KEY_F17))
    }     else if equals_str(name, "f18") {
        Some(Key(KEY_F18))
    }     else if equals_str(name, "f19") {
        Some(Key(KEY_F19))
    }     else if equals_str(name, "f20") {
        Some(Key(KEY_F20))
    }     else if equals_str(name, "f21") {
        Some(Key(KEY_F21))
    }     else if equals_str(name, "f22") {
        Some(Key(KEY_F22))
    }     else if equals_str(name, "f23") {
        Some(Key(KEY_F23))
    }     else if equals_str(name, "f24") {
        Some(Key(KEY_F24))
    } else {
        None
    }
}

/// The key that a name stands for, where the name is already in lower case.
pub fn keysym_from_lowercase(name: &str) -> (key: Option<Key>)
    ensures
        key == keysym_named(name@),
{
    let name = chars_of(name);
    let found = find_character_key(&name);
    if found.is_some() {
        return found;
    }
    let found = find_editing_key(&name);
    if found.is_some() {
        return found;
    }
    let found = find_media_key(&name);
    if found.is_some() {
        return found;
    }
    let found = find_punctuation_key(&name);
    if found.is_some() {
        return found;
    }
    let found = find_navigation_key(&name);
    if found.is_some() {
        return found;
    }
    find_function_key(&name)
}

/// The key that a name stands for. Names are matched without regard to case:
/// the name is brought to lower case first.
pub fn match_keysym(keysym: &str) -> (key: Option<Key>)
    ensures
        key == keysym_named(lowercase(keysym@)),
{
    let lower = keysym.to_lowercase();
    keysym_from_lowercase(lower.as_str())
}

} // verus!
