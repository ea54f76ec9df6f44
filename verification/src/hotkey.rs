//! What a configuration compiles to: hotkeys and key chords.
use crate::binding::{KeyBinding, KeyBindingView, Modifier, Prefix, Value};
use crate::keysym::Key;
use vstd::prelude::*;

verus! {

/// A binding and the command it runs.
#[derive(Debug, PartialEq)]
pub struct Hotkey {
    pub keybinding: KeyBinding,
    pub command: String,
}

/// A binding that opens a chord, the key sequences that may follow it, and
/// the command of each sequence, at the same position.
#[derive(Debug, PartialEq)]
pub struct KeyChord {
    pub entry: KeyBinding,
    pub chords: Vec<Vec<KeyBinding>>,
    pub commands: Vec<String>,
}

/// What a key line and its command line compile to.
#[derive(Debug, PartialEq)]
pub enum ParseOutput {
    KeyChord(KeyChord),
    Hotkey(Hotkey),
}

/// The mathematical value of a `Hotkey`.
pub struct HotkeyView {
    pub keybinding: KeyBindingView,
    pub command: Seq<char>,
}

/// The mathematical value of a `KeyChord`.
pub struct KeyChordView {
    pub entry: KeyBindingView,
    pub chords: Seq<Seq<KeyBindingView>>,
    pub commands: Seq<Seq<char>>,
}

/// The mathematical value of a `ParseOutput`.
pub enum ParseOutputView {
    KeyChord(KeyChordView),
    Hotkey(HotkeyView),
}

/// The values of the bindings of a vector.
pub open spec fn binding_views(bindings: Seq<KeyBinding>) -> Seq<KeyBindingView> {
    Seq::new(bindings.len(), |k: int| bindings[k]@)
}

/// The values of the key sequences of a vector.
pub open spec fn chord_views(chords: Seq<Vec<KeyBinding>>) -> Seq<Seq<KeyBindingView>> {
    Seq::new(chords.len(), |t: int| binding_views(chords[t]@))
}

/// The values of the outputs of a vector.
pub open spec fn output_views(outputs: Seq<ParseOutput>) -> Seq<ParseOutputView> {
    Seq::new(outputs.len(), |i: int| outputs[i]@)
}

impl View for Hotkey {
    type V = HotkeyView;

    open spec fn view(&self) -> HotkeyView {
        HotkeyView { keybinding: self.keybinding@, command: self.command@ }
    }
}

impl View for KeyChord {
    type V = KeyChordView;

    open spec fn view(&self) -> KeyChordView {
        KeyChordView {
            entry: self.entry@,
            chords: chord_views(self.chords@),
            commands: self.commands.deep_view(),
        }
    }
}

impl View for ParseOutput {
    type V = ParseOutputView;

    open spec fn view(&self) -> ParseOutputView {
        match self {
            ParseOutput::KeyChord(chord) => ParseOutputView::KeyChord(chord@),
            ParseOutput::Hotkey(hotkey) => ParseOutputView::Hotkey(hotkey@),
        }
    }
}

impl KeyChordView {
    /// Whether the chord has one command for each of its key sequences.
    pub open spec fn well_formed(self) -> bool {
        self.chords.len() == self.commands.len()
    }
}

impl Clone for Hotkey {
    fn clone(&self) -> (copy: Hotkey)
        ensures
            copy@ == self@,
    {
        Hotkey { keybinding: self.keybinding.clone(), command: self.command.clone() }
    }
}

impl Hotkey {
    /// The hotkey that runs `command` on `keybinding`.
    pub fn from_keybinding(keybinding: KeyBinding, command: String) -> (hotkey: Hotkey)
        ensures
            hotkey@ == (HotkeyView { keybinding: keybinding@, command: command@ }),
    {
        Hotkey { keybinding, command }
    }

    /// The hotkey that runs `command` on a key with modifiers, both flags off.
    pub fn new(keysym: Key, modifiers: Vec<Modifier>, command: String) -> (hotkey: Hotkey)
        ensures
            hotkey@ == (HotkeyView {
                keybinding: KeyBindingView {
                    keysym,
                    modifiers: modifiers@,
                    send: false,
                    on_release: false,
                },
                command: command@,
            }),
    {
        Hotkey { keybinding: KeyBinding::new(keysym, modifiers), command }
    }
}

impl Prefix for Hotkey {
    fn send(self) -> (hotkey: Hotkey)
        ensures
            hotkey@ == (HotkeyView {
                keybinding: KeyBindingView { send: true, ..self@.keybinding },
                ..self@
            }),
    {
        let mut hotkey = self;
        hotkey.keybinding.send = true;
        hotkey
    }

    fn on_release(self) -> (hotkey: Hotkey)
        ensures
            hotkey@ == (HotkeyView {
                keybinding: KeyBindingView { on_release: true, ..self@.keybinding },
                ..self@
            }),
    {
        let mut hotkey = self;
        hotkey.keybinding.on_release = true;
        hotkey
    }
}

impl Value for &Hotkey {
    fn keysym(&self) -> (keysym: Key)
        ensures
            keysym == self@.keybinding.keysym,
    {
        self.keybinding.keysym
    }

    fn modifiers(&self) -> (modifiers: Vec<Modifier>)
        ensures
            modifiers@ == self@.keybinding.modifiers,
    {
        self.keybinding.clone().modifiers
    }

    fn is_send(&self) -> (send: bool)
        ensures
            send == self@.keybinding.send,
    {
        self.keybinding.send
    }

    fn is_on_release(&self) -> (on_release: bool)
        ensures
            on_release == self@.keybinding.on_release,
    {
        self.keybinding.on_release
    }
}

} // verus!
