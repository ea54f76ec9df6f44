//! Key bindings and the grammar of a key expression.
//!
//! A key expression such as `super + shift + @a` names modifiers, joined by
//! plus signs, and ends in the name of a key, which may carry the prefixes
//! `@` (act on release) and `~` (let the key through as well).
use crate::error::{Error, ErrorView, ParseError, ParseErrorView};
use crate::keysym::{keysym_named, match_keysym, Key};
use crate::text::{
    chars_of,
    equals_str,
    lowercase,
    split,
    split_on,
    string_of,
    subrange,
    texts,
    trim,
    trim_all,
    trimmed,
};
use vstd::prelude::*;

verus! {

/// A key that is held while another is pressed.
#[derive(Debug, PartialEq, Eq, Copy, Clone, Hash, Structural)]
pub enum Modifier {
    Super,
    Alt,
    Control,
    Shift,
}

/// A key together with the modifiers held with it, and whether the binding
/// acts when the key is released and whether the key is let through.
#[derive(Debug)]
pub struct KeyBinding {
    pub keysym: Key,
    pub modifiers: Vec<Modifier>,
    pub send: bool,
    pub on_release: bool,
}

/// The mathematical value of a `KeyBinding`.
pub struct KeyBindingView {
    pub keysym: Key,
    pub modifiers: Seq<Modifier>,
    pub send: bool,
    pub on_release: bool,
}

impl View for KeyBinding {
    type V = KeyBindingView;

    open spec fn view(&self) -> KeyBindingView {
        KeyBindingView {
            keysym: self.keysym,
            modifiers: self.modifiers@,
            send: self.send,
            on_release: self.on_release,
        }
    }
}

/// When two bindings count as equal: key and flags agree, and both hold the
/// same set of modifiers. Neither the order of the modifiers matters nor how
/// often one is listed.
pub open spec fn same_binding(a: KeyBindingView, b: KeyBindingView) -> bool {
    &&& a.keysym == b.keysym
    &&& a.modifiers.to_set() == b.modifiers.to_set()
    &&& a.send == b.send
    &&& a.on_release == b.on_release
}

/// Whether every element of `a` occurs in `b`.
pub open spec fn all_among(a: Seq<Modifier>, b: Seq<Modifier>) -> bool {
    forall|i: int| 0 <= i < a.len() ==> b.contains(#[trigger] a[i])
}

/// Two lists hold the same set of modifiers exactly when every modifier of
/// either occurs in the other.
pub proof fn lemma_same_set_is_mutual_containment(a: Seq<Modifier>, b: Seq<Modifier>)
    ensures
        a.to_set() == b.to_set() <==> all_among(a, b) && all_among(b, a),
{
    if a.to_set() == b.to_set() {
        assert forall|i: int| 0 <= i < a.len() implies b.contains(#[trigger] a[i]) by {
            assert(a.contains(a[i]));
            assert(a.to_set().contains(a[i]));
            assert(b.to_set().contains(a[i]));
        }
        assert forall|i: int| 0 <= i < b.len() implies a.contains(#[trigger] b[i]) by {
            assert(b.contains(b[i]));
            assert(b.to_set().contains(b[i]));
            assert(a.to_set().contains(b[i]));
        }
    }
    if all_among(a, b) && all_among(b, a) {
        assert forall|m: Modifier| a.to_set().contains(m) <==> b.to_set().contains(m) by {
            if a.contains(m) {
                let i = choose|i: int| 0 <= i < a.len() && a[i] == m;
                assert(b.contains(a[i]));
            }
            if b.contains(m) {
                let i = choose|i: int| 0 <= i < b.len() && b[i] == m;
                assert(a.contains(b[i]));
            }
        }
        assert(a.to_set() =~= b.to_set());
    }
}

/// Equality of bindings is an equivalence: every binding equals itself, two
/// equal each other or neither does, and what equals the same is equal.
pub proof fn lemma_equality_is_an_equivalence(
    a: KeyBindingView,
    b: KeyBindingView,
    c: KeyBindingView,
)
    ensures
        same_binding(a, a),
        same_binding(a, b) == same_binding(b, a),
        same_binding(a, b) && same_binding(b, c) ==> same_binding(a, c),
{
}

/// Whether the list holds the modifier.
fn holds(modifiers: &Vec<Modifier>, modifier: Modifier) -> (found: bool)
    ensures
        found == modifiers@.contains(modifier),
{
    let mut i: usize = 0;
    while i < modifiers.len()
        invariant
            i <= modifiers.len(),
            forall|j: int| 0 <= j < i ==> modifiers[j] != modifier,
        decreases modifiers.len() - i,
    {
        if modifiers[i] == modifier {
            return true;
        }
        i += 1;
    }
    false
}

/// Whether every modifier of `a` occurs in `b`.
fn are_among(a: &Vec<Modifier>, b: &Vec<Modifier>) -> (yes: bool)
    ensures
        yes == all_among(a@, b@),
{
    let mut i: usize = 0;
    while i < a.len()
        invariant
            i <= a.len(),
            forall|j: int| 0 <= j < i ==> b@.contains(#[trigger] a@[j]),
        decreases a.len() - i,
    {
        if !holds(b, a[i]) {
            return false;
        }
        i += 1;
    }
    true
}

impl PartialEq for KeyBinding {
    fn eq(&self, other: &KeyBinding) -> (equal: bool) {
        proof {
            lemma_same_set_is_mutual_containment(self.modifiers@, other.modifiers@);
        }
        self.keysym == other.keysym && self.send == other.send && self.on_release
            == other.on_release && are_among(&self.modifiers, &other.modifiers) && are_among(
            &other.modifiers,
            &self.modifiers,
        )
    }
}

impl vstd::std_specs::cmp::PartialEqSpecImpl for KeyBinding {
    open spec fn obeys_eq_spec() -> bool {
        true
    }

    open spec fn eq_spec(&self, other: &KeyBinding) -> bool {
        same_binding(self@, other@)
    }
}

impl Clone for KeyBinding {
    fn clone(&self) -> (copy: KeyBinding)
        ensures
            copy@ == self@,
    {
        let mut modifiers: Vec<Modifier> = Vec::new();
        let mut i: usize = 0;
        while i < self.modifiers.len()
            invariant
                i <= self.modifiers.len(),
                modifiers@ == self.modifiers@.take(i as int),
            decreases self.modifiers.len() - i,
        {
            modifiers.push(self.modifiers[i]);
            i += 1;
        }
        assert(self.modifiers@.take(i as int) =~= self.modifiers@);
        KeyBinding {
            keysym: self.keysym,
            modifiers,
            send: self.send,
            on_release: self.on_release,
        }
    }
}

/// Setting the flags that the prefixes of a key stand for.
pub trait Prefix {
    /// The same with the key let through to other programs as well.
    fn send(self) -> Self;

    /// The same, acting when the key is released.
    fn on_release(self) -> Self;
}

/// Reading a binding.
pub trait Value {
    /// The key.
    fn keysym(&self) -> Key;

    /// The modifiers held with the key, as they were listed.
    fn modifiers(&self) -> Vec<Modifier>;

    /// Whether the key is let through to other programs as well.
    fn is_send(&self) -> bool;

    /// Whether the binding acts when the key is released.
    fn is_on_release(&self) -> bool;
}

impl KeyBinding {
    /// The binding of a key with modifiers, with both flags off.
    pub fn new(keysym: Key, modifiers: Vec<Modifier>) -> (binding: KeyBinding)
        ensures
            binding@ == (KeyBindingView {
                keysym,
                modifiers: modifiers@,
                send: false,
                on_release: false,
            }),
    {
        KeyBinding { keysym, modifiers, send: false, on_release: false }
    }
}

impl Prefix for KeyBinding {
    fn send(self) -> (binding: KeyBinding)
        ensures
            binding@ == (KeyBindingView { send: true, ..self@ }),
    {
        let mut binding = self;
        binding.send = true;
        binding
    }

    fn on_release(self) -> (binding: KeyBinding)
        ensures
            binding@ == (KeyBindingView { on_release: true, ..self@ }),
    {
        let mut binding = self;
        binding.on_release = true;
        binding
    }
}

impl Value for KeyBinding {
    fn keysym(&self) -> (keysym: Key)
        ensures
            keysym == self@.keysym,
    {
        self.keysym
    }

    fn modifiers(&self) -> (modifiers: Vec<Modifier>)
        ensures
            modifiers@ == self@.modifiers,
    {
        self.clone().modifiers
    }

    fn is_send(&self) -> (send: bool)
        ensures
            send == self@.send,
    {
        self.send
    }

    fn is_on_release(&self) -> (on_release: bool)
        ensures
            on_release == self@.on_release,
    {
        self.on_release
    }
}

/// The modifier that a lower-case name stands for, if it names one.
pub open spec fn modifier_named(name: Seq<char>) -> Option<Modifier> {
    if name == "super"@ || name == "mod4"@ {
        Some(Modifier::Super)
    } else if name == "alt"@ || name == "mod1"@ {
        Some(Modifier::Alt)
    } else if name == "control"@ || name == "ctrl"@ {
        Some(Modifier::Control)
    } else if name == "shift"@ {
        Some(Modifier::Shift)
    } else {
        None
    }
}

/// The modifier that a name stands for, where the name is already in lower
/// case.
pub fn modifier_from_lowercase(name: &str) -> (modifier: Option<Modifier>)
    ensures
        modifier == modifier_named(name@),
{
    let name = chars_of(name);
    if equals_str(&name, "super") || equals_str(&name, "mod4") {
        Some(Modifier::Super)
    } else if equals_str(&name, "alt") || equals_str(&name, "mod1") {
        Some(Modifier::Alt)
    } else if equals_str(&name, "control") || equals_str(&name, "ctrl") {
        Some(Modifier::Control)
    } else if equals_str(&name, "shift") {
        Some(Modifier::Shift)
    } else {
        None
    }
}

/// The modifier that a name stands for. Names are matched without regard to
/// case: the name is brought to lower case first.
pub fn match_modifier(modifier: &str) -> (found: Option<Modifier>)
    ensures
        found == modifier_named(lowercase(modifier@)),
{
    let lower = modifier.to_lowercase();
    modifier_from_lowercase(lower.as_str())
}

/// The text without the prefix characters `@` and `~` at its start.
pub open spec fn strip_prefixes(s: Seq<char>) -> Seq<char>
    decreases s.len(),
{
    if s.len() > 0 && (s[0] == '@' || s[0] == '~') {
        strip_prefixes(s.drop_first())
    } else {
        s
    }
}

/// Whether the key piece asks for the binding to act on release: it starts
/// with `@` or with `~@`.
pub open spec fn marks_release(piece: Seq<char>) -> bool {
    ||| piece.len() >= 1 && piece[0] == '@'
    ||| piece.len() >= 2 && piece[0] == '~' && piece[1] == '@'
}

/// Whether the key piece asks for the key to be let through: it starts with
/// `~` or with `@~`.
pub open spec fn marks_send(piece: Seq<char>) -> bool {
    ||| piece.len() >= 1 && piece[0] == '~'
    ||| piece.len() >= 2 && piece[0] == '@' && piece[1] == '~'
}

/// The pieces of a key expression: what stands between its plus signs, each
/// piece trimmed. All but the last name modifiers; the last names the key.
pub open spec fn binding_pieces(key: Seq<char>) -> Seq<Seq<char>> {
    trim_all(split(key, '+'))
}

/// The modifier that the piece at position `i` of a key expression names.
pub open spec fn modifier_at(key: Seq<char>, i: int) -> Option<Modifier> {
    modifier_named(lowercase(binding_pieces(key)[i]))
}

/// The key that the last piece of a key expression names.
pub open spec fn keysym_of(key: Seq<char>) -> Option<Key> {
    keysym_named(lowercase(strip_prefixes(binding_pieces(key).last())))
}

/// Why a key expression is not a binding.
pub enum Fault {
    /// A piece before the last names no modifier.
    InvalidModifier,
    /// The last piece names no key.
    UnknownSymbol,
}

/// What a key expression means. A piece that names no modifier makes it
/// invalid, whatever the key; with all modifiers known, the key has to be.
pub open spec fn parse_binding(key: Seq<char>) -> Result<KeyBindingView, Fault> {
    let pieces = binding_pieces(key);
    if exists|i: int| 0 <= i < pieces.len() - 1 && modifier_at(key, i) is None {
        Err(Fault::InvalidModifier)
    } else if keysym_of(key) is None {
        Err(Fault::UnknownSymbol)
    } else {
        Ok(
            KeyBindingView {
                keysym: keysym_of(key)->Some_0,
                modifiers: Seq::new(
                    (pieces.len() - 1) as nat,
                    |i: int| modifier_at(key, i)->Some_0,
                ),
                send: marks_send(pieces.last()),
                on_release: marks_release(pieces.last()),
            },
        )
    }
}

/// The error that reports a fault in the key line `line` of the file `path`.
pub open spec fn fault_error(fault: Fault, path: Seq<char>, line: u32) -> ErrorView {
    match fault {
        Fault::InvalidModifier => ErrorView::InvalidConfig(
            ParseErrorView::InvalidModifier(path, line),
        ),
        Fault::UnknownSymbol => ErrorView::InvalidConfig(ParseErrorView::UnknownSymbol(path, line)),
    }
}

/// Whether `result` is what reading the key expression `key` gives: the
/// binding it means, or the error for its fault, with the path and the line
/// number handed in.
pub open spec fn is_parsed(
    result: Result<KeyBinding, Error>,
    key: Seq<char>,
    line: u32,
    path: Seq<char>,
) -> bool {
    match parse_binding(key) {
        Ok(binding) => result is Ok && result->Ok_0@ == binding,
        Err(fault) => result is Err && result->Err_0@ == fault_error(fault, path, line),
    }
}

/// The text without the prefix characters at its start.
fn without_prefixes(piece: &Vec<char>) -> (bare: Vec<char>)
    ensures
        bare@ == strip_prefixes(piece@),
{
    let mut start: usize = 0;
    assert(piece@.skip(0) =~= piece@);
    while start < piece.len() && (piece[start] == '@' || piece[start] == '~')
        invariant
            start <= piece.len(),
            strip_prefixes(piece@) == strip_prefixes(piece@.skip(start as int)),
        decreases piece.len() - start,
    {
        assert(piece@.skip(start as int).drop_first() =~= piece@.skip(start + 1));
        start += 1;
    }
    subrange(piece, start, piece.len())
}

/// Reads a key expression such as `super + shift + @a`.
///
/// The expression is split at its plus signs and each piece is trimmed. The
/// last piece names the key, after any prefixes; the pieces before it name
/// modifiers, which the binding lists in their order. If a piece names no
/// modifier the result is `InvalidModifier`; otherwise, if the key is not
/// known, `UnknownSymbol`. Both errors carry `path` and `line_nr`.
pub fn parse_keybinding(key: &str, line_nr: u32, path: String) -> (result: Result<
    KeyBinding,
    Error,
>)
    ensures
        is_parsed(result, key@, line_nr, path@),
{
    let chars = chars_of(key);
    let raw = split_on(&chars, '+');
    let count = raw.len() - 1;
    let ghost pieces = binding_pieces(key@);
    let last = trimmed(&raw[count]);
    let on_release = (last.len() >= 1 && last[0] == '@') || (last.len() >= 2 && last[0] == '~'
        && last[1] == '@');
    let send = (last.len() >= 1 && last[0] == '~') || (last.len() >= 2 && last[0] == '@'
        && last[1] == '~');
    let bare = string_of(&without_prefixes(&last));
    let keysym = match_keysym(bare.as_str());
    let mut modifiers: Vec<Modifier> = Vec::new();
    let mut i: usize = 0;
    while i < count
        invariant
            i <= count,
            count == raw.len() - 1,
            pieces == binding_pieces(key@),
            pieces.len() == raw.len(),
            forall|j: int| 0 <= j < raw.len() ==> pieces[j] == trim(#[trigger] texts(raw@)[j]),
            modifiers.len() == i,
            forall|j: int| 0 <= j < i ==> #[trigger] modifier_at(key@, j) == Some(modifiers[j]),
        decreases count - i,
    {
        let name = string_of(&trimmed(&raw[i]));
        assert(name@ == pieces[i as int]) by {
            assert(texts(raw@)[i as int] == raw[i as int]@);
        }
        match match_modifier(name.as_str()) {
            Some(modifier) => {
                modifiers.push(modifier);
            },
            None => {
                assert(modifier_at(key@, i as int) is None);
                return Err(Error::InvalidConfig(ParseError::InvalidModifier(path, line_nr)));
            },
        }
        i += 1;
    }
    match keysym {
        Some(keysym) => {
            let binding = KeyBinding { keysym, modifiers, on_release, send };
            assert(binding@.modifiers =~= parse_binding(key@)->Ok_0.modifiers);
            Ok(binding)
        },
        None => Err(Error::InvalidConfig(ParseError::UnknownSymbol(path, line_nr))),
    }
}

} // verus!
