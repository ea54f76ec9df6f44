//! From a key line and its command line to hotkeys and key chords.
//!
//! A key line holds one key expression, or several joined by semicolons that
//! form a chord. Key line and command line are both expanded, and the
//! expanded key expressions take the expanded commands in their order.
use crate::binding::{
    fault_error,
    parse_binding,
    parse_keybinding,
    Fault,
    KeyBinding,
    KeyBindingView,
};
use crate::error::{Error, ErrorView, ParseErrorView};
use crate::expand::{expand, extract_curly_brace, lemma_expand_nonempty};
use crate::hotkey::{
    binding_views,
    chord_views,
    output_views,
    Hotkey,
    HotkeyView,
    KeyChord,
    KeyChordView,
    ParseOutput,
    ParseOutputView,
};
use crate::line::Line;
use crate::product::{cartesian_product, lemma_product_nonempty, product};
use crate::text::{chars_of, split, split_on, string_of, texts, trim_all, trimmed};
use vstd::arithmetic::mul::lemma_mul_inequality;
use vstd::prelude::*;

verus! {

/// The key expressions of a key line: what stands between its semicolons,
/// each piece trimmed. One alone is a plain binding; of several, the first
/// opens a chord and the others follow it.
pub open spec fn key_segments(content: Seq<char>) -> Seq<Seq<char>> {
    trim_all(split(content, ';'))
}

/// The fault of the first key expression that has one, if any has.
pub open spec fn first_fault(keys: Seq<Seq<char>>) -> Option<Fault>
    decreases keys.len(),
{
    if keys.len() == 0 {
        None
    } else if first_fault(keys.drop_last()) is Some {
        first_fault(keys.drop_last())
    } else {
        match parse_binding(keys.last()) {
            Err(fault) => Some(fault),
            Ok(_) => None,
        }
    }
}

/// The fault of the first tuple of key expressions that has one, if any has.
pub open spec fn first_fault_of_tuples(tuples: Seq<Seq<Seq<char>>>) -> Option<Fault>
    decreases tuples.len(),
{
    if tuples.len() == 0 {
        None
    } else if first_fault_of_tuples(tuples.drop_last()) is Some {
        first_fault_of_tuples(tuples.drop_last())
    } else {
        first_fault(tuples.last())
    }
}

/// The binding that a valid key expression means.
pub open spec fn parsed(key: Seq<char>) -> KeyBindingView {
    parse_binding(key)->Ok_0
}

/// The bindings that valid key expressions mean.
pub open spec fn parsed_all(keys: Seq<Seq<char>>) -> Seq<KeyBindingView> {
    Seq::new(keys.len(), |k: int| parsed(keys[k]))
}

/// The key sequences that tuples of valid key expressions mean.
pub open spec fn parsed_tuples(tuples: Seq<Seq<Seq<char>>>) -> Seq<Seq<KeyBindingView>> {
    Seq::new(tuples.len(), |t: int| parsed_all(tuples[t]))
}

/// The key sequences of a chord as tuples of key expressions: the product of
/// the expansions of every segment after the first, in segment order.
pub open spec fn chord_tuples(segments: Seq<Seq<char>>) -> Seq<Seq<Seq<char>>> {
    product(Seq::new((segments.len() - 1) as nat, |k: int| expand(segments[k + 1])))
}

/// One hotkey for each key expression, with the command at the same position.
pub open spec fn hotkeys(keys: Seq<Seq<char>>, commands: Seq<Seq<char>>) -> Seq<ParseOutputView> {
    Seq::new(
        keys.len(),
        |i: int|
            ParseOutputView::Hotkey(HotkeyView { keybinding: parsed(keys[i]), command: commands[i] }),
    )
}

/// One key chord for each entry. All share the key sequences, and each takes
/// the next commands, one per key sequence, where the entry before stopped.
pub open spec fn key_chords(
    entries: Seq<Seq<char>>,
    tuples: Seq<Seq<Seq<char>>>,
    commands: Seq<Seq<char>>,
) -> Seq<ParseOutputView> {
    Seq::new(
        entries.len(),
        |e: int|
            ParseOutputView::KeyChord(
                KeyChordView {
                    entry: parsed(entries[e]),
                    chords: parsed_tuples(tuples),
                    commands: commands.subrange(e * tuples.len(), (e + 1) * tuples.len()),
                },
            ),
    )
}

/// Whether the command line gives a command to every binding of the key
/// line: to each expanded key expression, or in a chord to each key sequence
/// of each entry.
pub open spec fn enough_commands(keys: Seq<char>, command: Seq<char>) -> bool {
    let segments = key_segments(keys);
    if segments.len() == 1 {
        expand(segments[0]).len() <= expand(command).len()
    } else {
        expand(segments[0]).len() * chord_tuples(segments).len() <= expand(command).len()
    }
}

/// What a key line and its command line compile to, or the error for the
/// first fault of the key line. In a chord the key sequences are read before
/// the entries.
pub open spec fn compile_line(keys: Seq<char>, command: Seq<char>, path: Seq<char>, line: u32)
    -> Result<Seq<ParseOutputView>, ErrorView> {
    let segments = key_segments(keys);
    let commands = expand(command);
    if segments.len() == 1 {
        let keys = expand(segments[0]);
        match first_fault(keys) {
            Some(fault) => Err(fault_error(fault, path, line)),
            None => Ok(hotkeys(keys, commands)),
        }
    } else {
        let entries = expand(segments[0]);
        let tuples = chord_tuples(segments);
        match first_fault_of_tuples(tuples) {
            Some(fault) => Err(fault_error(fault, path, line)),
            None => match first_fault(entries) {
                Some(fault) => Err(fault_error(fault, path, line)),
                None => Ok(key_chords(entries, tuples, commands)),
            },
        }
    }
}

/// Whether `result` is the outcome `expected`.
pub open spec fn is_outcome(
    result: Result<Vec<ParseOutput>, Error>,
    expected: Result<Seq<ParseOutputView>, ErrorView>,
) -> bool {
    match expected {
        Ok(outputs) => result is Ok && output_views(result->Ok_0@) == outputs,
        Err(error) => result is Err && result->Err_0@ == error,
    }
}

/// A fault among the first key expressions is the fault of them all.
pub proof fn lemma_fault_in_prefix(keys: Seq<Seq<char>>, k: int)
    requires
        0 <= k <= keys.len(),
        first_fault(keys.take(k)) is Some,
    ensures
        first_fault(keys) == first_fault(keys.take(k)),
    decreases keys.len() - k,
{
    if k == keys.len() {
        assert(keys.take(k) =~= keys);
    } else {
        assert(keys.drop_last().take(k) =~= keys.take(k));
        lemma_fault_in_prefix(keys.drop_last(), k);
    }
}

/// A fault among the first tuples is the fault of them all.
pub proof fn lemma_fault_in_first_tuples(tuples: Seq<Seq<Seq<char>>>, t: int)
    requires
        0 <= t <= tuples.len(),
        first_fault_of_tuples(tuples.take(t)) is Some,
    ensures
        first_fault_of_tuples(tuples) == first_fault_of_tuples(tuples.take(t)),
    decreases tuples.len() - t,
{
    if t == tuples.len() {
        assert(tuples.take(t) =~= tuples);
    } else {
        assert(tuples.drop_last().take(t) =~= tuples.take(t));
        lemma_fault_in_first_tuples(tuples.drop_last(), t);
    }
}

/// The first fault among key expressions is the fault of one of them, with
/// none but valid ones before it; there is none exactly when all are valid.
pub proof fn lemma_first_fault(keys: Seq<Seq<char>>)
    ensures
        first_fault(keys) is None <==> forall|i: int|
            0 <= i < keys.len() ==> (#[trigger] parse_binding(keys[i])) is Ok,
        first_fault(keys) is Some ==> exists|i: int|
            {
                &&& 0 <= i < keys.len()
                &&& #[trigger] parse_binding(keys[i]) == Err::<KeyBindingView, Fault>(
                    first_fault(keys)->Some_0,
                )
                &&& forall|j: int| 0 <= j < i ==> (#[trigger] parse_binding(keys[j])) is Ok
            },
    decreases keys.len(),
{
    if keys.len() > 0 {
        let init = keys.drop_last();
        lemma_first_fault(init);
        assert(forall|i: int| 0 <= i < init.len() ==> init[i] == keys[i]);
    }
}

/// There is no fault among tuples of key expressions exactly when there is
/// none in any of the tuples.
pub proof fn lemma_first_fault_of_tuples(tuples: Seq<Seq<Seq<char>>>)
    ensures
        first_fault_of_tuples(tuples) is None <==> forall|t: int|
            0 <= t < tuples.len() ==> (#[trigger] first_fault(tuples[t])) is None,
        first_fault_of_tuples(tuples) is Some ==> exists|t: int|
            {
                &&& 0 <= t < tuples.len()
                &&& #[trigger] first_fault(tuples[t]) == first_fault_of_tuples(tuples)
                &&& forall|u: int| 0 <= u < t ==> (#[trigger] first_fault(tuples[u])) is None
            },
    decreases tuples.len(),
{
    if tuples.len() > 0 {
        let init = tuples.drop_last();
        lemma_first_fault_of_tuples(init);
        assert(forall|t: int| 0 <= t < init.len() ==> init[t] == tuples[t]);
    }
}

/// A key line compiles exactly when every key expression that it expands to
/// is valid: those of its only or first segment and, in a chord, those of
/// every key sequence. Otherwise the error is `UnknownSymbol` or
/// `InvalidModifier`, with the path handed in and the number of the key line.
pub proof fn lemma_errors_name_the_key_line(
    keys: Seq<char>,
    command: Seq<char>,
    path: Seq<char>,
    line: u32,
)
    ensures
        ({
            let segments = key_segments(keys);
            let first = expand(segments[0]);
            let tuples = chord_tuples(segments);
            compile_line(keys, command, path, line) is Ok <==> {
                &&& forall|i: int| 0 <= i < first.len() ==> (#[trigger] parse_binding(first[i])) is Ok
                &&& segments.len() != 1 ==> forall|t: int, k: int|
                    0 <= t < tuples.len() && 0 <= k < tuples[t].len() ==> (#[trigger] parse_binding(
                        tuples[t][k],
                    )) is Ok
            }
        }),
        compile_line(keys, command, path, line) is Err ==> {
            let error = compile_line(keys, command, path, line)->Err_0;
            ||| error == ErrorView::InvalidConfig(ParseErrorView::UnknownSymbol(path, line))
            ||| error == ErrorView::InvalidConfig(ParseErrorView::InvalidModifier(path, line))
        },
{
    let segments = key_segments(keys);
    let first = expand(segments[0]);
    let tuples = chord_tuples(segments);
    lemma_first_fault(first);
    lemma_first_fault_of_tuples(tuples);
    assert forall|t: int| 0 <= t < tuples.len() implies (first_fault(tuples[t]) is None
        <==> forall|k: int|
        0 <= k < tuples[t].len() ==> (#[trigger] parse_binding(tuples[t][k])) is Ok) by {
        lemma_first_fault(tuples[t]);
    }
}

/// Every key chord that a key line compiles to has one command for each of
/// its key sequences.
pub proof fn lemma_chords_are_well_formed(
    keys: Seq<char>,
    command: Seq<char>,
    path: Seq<char>,
    line: u32,
    i: int,
)
    requires
        enough_commands(keys, command),
        compile_line(keys, command, path, line) is Ok,
        0 <= i < compile_line(keys, command, path, line)->Ok_0.len(),
        compile_line(keys, command, path, line)->Ok_0[i] is KeyChord,
    ensures
        compile_line(keys, command, path, line)->Ok_0[i]->KeyChord_0.well_formed(),
{
    let segments = key_segments(keys);
    if segments.len() != 1 {
        let entries = expand(segments[0]);
        let n = chord_tuples(segments).len() as int;
        lemma_slice_in_range(i, entries.len() as int, n);
    }
}

/// The commands of the entry at position `e` of `total` lie within
/// `total * n` commands.
proof fn lemma_slice_in_range(e: int, total: int, n: int)
    requires
        0 <= e < total,
        0 <= n,
    ensures
        0 <= e * n <= (e + 1) * n <= total * n,
        (e + 1) * n == e * n + n,
{
    lemma_mul_inequality(e + 1, total, n);
    assert((e + 1) * n == e * n + n) by (nonlinear_arith);
}

/// The key expressions of a key line.
fn segments_of(content: &str) -> (segments: Vec<String>)
    ensures
        segments.deep_view() == key_segments(content@),
        segments.len() >= 1,
{
    let pieces = split_on(&chars_of(content), ';');
    let mut segments: Vec<String> = Vec::new();
    let mut i: usize = 0;
    while i < pieces.len()
        invariant
            i <= pieces.len(),
            segments.len() == i,
            texts(pieces@) == split(content@, ';'),
            forall|j: int| 0 <= j < i ==> (#[trigger] segments[j])@ == key_segments(content@)[j],
        decreases pieces.len() - i,
    {
        segments.push(string_of(&trimmed(&pieces[i])));
        i += 1;
    }
    segments
}

/// The bindings that the key expressions mean, or the error for the first
/// fault among them.
fn parse_all(keys: &Vec<String>, line_nr: u32, path: &String) -> (result: Result<
    Vec<KeyBinding>,
    Error,
>)
    ensures
        match first_fault(keys.deep_view()) {
            Some(fault) => result is Err && result->Err_0@ == fault_error(fault, path@, line_nr),
            None => result is Ok && binding_views(result->Ok_0@) == parsed_all(keys.deep_view()),
        },
{
    let ghost all = keys.deep_view();
    let mut bindings: Vec<KeyBinding> = Vec::new();
    let mut k: usize = 0;
    while k < keys.len()
        invariant
            k <= keys.len(),
            all == keys.deep_view(),
            bindings.len() == k,
            first_fault(all.take(k as int)) is None,
            forall|j: int| 0 <= j < k ==> (#[trigger] bindings[j])@ == parsed(all[j]),
        decreases keys.len() - k,
    {
        let parsed = parse_keybinding(keys[k].as_str(), line_nr, path.clone());
        proof {
            assert(all.take(k + 1).drop_last() =~= all.take(k as int));
            assert(all.take(k + 1).last() == all[k as int]);
        }
        match parsed {
            Ok(binding) => {
                bindings.push(binding);
            },
            Err(error) => {
                proof {
                    lemma_fault_in_prefix(all, k + 1);
                }
                return Err(error);
            },
        }
        k += 1;
    }
    proof {
        assert(all.take(k as int) =~= all);
    }
    Ok(bindings)
}

/// A copy of the key sequences.
fn copy_chords(chords: &Vec<Vec<KeyBinding>>) -> (copy: Vec<Vec<KeyBinding>>)
    ensures
        chord_views(copy@) == chord_views(chords@),
{
    let mut copy: Vec<Vec<KeyBinding>> = Vec::new();
    let mut t: usize = 0;
    while t < chords.len()
        invariant
            t <= chords.len(),
            copy.len() == t,
            forall|j: int| 0 <= j < t ==> binding_views((#[trigger] copy[j])@) == binding_views(chords[j]@),
        decreases chords.len() - t,
    {
        let mut sequence: Vec<KeyBinding> = Vec::new();
        let mut k: usize = 0;
        while k < chords[t].len()
            invariant
                t < chords.len(),
                k <= chords[t as int].len(),
                sequence.len() == k,
                forall|j: int| 0 <= j < k ==> (#[trigger] sequence[j])@ == chords[t as int][j]@,
            decreases chords[t as int].len() - k,
        {
            sequence.push(chords[t][k].clone());
            k += 1;
        }
        copy.push(sequence);
        t += 1;
    }
    copy
}

/// Whether the command line gives a command to every binding of the key
/// line. `parse_line` asks for this.
#[verifier::loop_isolation(false)]
pub fn has_enough_commands(keyline: &Line, commandline: &Line) -> (enough: bool)
    ensures
        enough == enough_commands(keyline.content@, commandline.content@),
{
    let segments = segments_of(keyline.content.as_str());
    let commands = extract_curly_brace(commandline.content.as_str());
    let entries = extract_curly_brace(segments[0].as_str());
    if segments.len() == 1 {
        return entries.len() <= commands.len();
    }
    let tuples = chord_sequences(&segments);
    let ghost n = tuples.len() as int;
    let mut needed: usize = 0;
    let mut e: usize = 0;
    while e < entries.len()
        invariant
            e <= entries.len(),
            n == tuples.len(),
            needed == e * n,
            needed <= commands.len(),
        decreases entries.len() - e,
    {
        proof {
            lemma_slice_in_range(e as int, entries.len() as int, n);
        }
        if tuples.len() > commands.len() - needed {
            return false;
        }
        needed = needed + tuples.len();
        e += 1;
    }
    true
}

/// The key sequences of a chord as tuples of key expressions.
fn chord_sequences(segments: &Vec<String>) -> (tuples: Vec<Vec<String>>)
    requires
        segments.len() >= 2,
    ensures
        tuples.deep_view() == chord_tuples(segments.deep_view()),
        tuples.len() > 0,
{
    let ghost all = segments.deep_view();
    let mut lists: Vec<Vec<String>> = Vec::new();
    let mut k: usize = 1;
    while k < segments.len()
        invariant
            1 <= k <= segments.len(),
            all == segments.deep_view(),
            lists.len() == k - 1,
            forall|j: int| 0 <= j < k - 1 ==> (#[trigger] lists[j]).deep_view() == expand(all[j + 1]),
        decreases segments.len() - k,
    {
        lists.push(extract_curly_brace(segments[k].as_str()));
        k += 1;
    }
    let ghost expansions = Seq::new((all.len() - 1) as nat, |k: int| expand(all[k + 1]));
    proof {
        assert(lists.deep_view() =~= expansions);
        assert forall|j: int| 0 <= j < expansions.len() implies #[trigger] expansions[j].len()
            > 0 by {
            lemma_expand_nonempty(all[j + 1]);
        }
        lemma_product_nonempty(expansions);
    }
    let tuples = cartesian_product(&lists);
    tuples
}

/// Compiles a key line with its command line.
///
/// The command line is expanded to the list of commands. A key line without
/// a semicolon is expanded, and each key expression that comes out makes a
/// hotkey with the command at the same position. A key line with semicolons
/// is a chord: its first segment expands to the entries, the product of the
/// expansions of the other segments gives the key sequences, and each entry
/// makes a key chord with all key sequences and the next commands, one per
/// key sequence. The first key expression that is not valid gives its error,
/// with `path` and the number of the key line, and nothing else comes back.
///
/// The command line has to give enough commands: see `has_enough_commands`.
#[verifier::loop_isolation(false)]
pub fn parse_line(keyline: Line, commandline: Line, path: String) -> (result: Result<
    Vec<ParseOutput>,
    Error,
>)
    requires
        enough_commands(keyline.content@, commandline.content@),
    ensures
        is_outcome(
            result,
            compile_line(keyline.content@, commandline.content@, path@, keyline.linenumber),
        ),
{
    let mut output: Vec<ParseOutput> = Vec::new();
    let segments = segments_of(keyline.content.as_str());
    let commands = extract_curly_brace(commandline.content.as_str());
    let ghost all_commands = expand(commandline.content@);
    let entries = extract_curly_brace(segments[0].as_str());
    let ghost keys = entries.deep_view();
    if segments.len() == 1 {
        let mut i: usize = 0;
        while i < entries.len()
            invariant
                i <= entries.len(),
                entries.len() <= commands.len(),
                keys == entries.deep_view(),
                all_commands == commands.deep_view(),
                output.len() == i,
                first_fault(keys.take(i as int)) is None,
                forall|j: int| 0 <= j < i ==> (#[trigger] output[j])@ == hotkeys(keys, all_commands)[j],
            decreases entries.len() - i,
        {
            let parsed = parse_keybinding(entries[i].as_str(), keyline.linenumber, path.clone());
            proof {
                assert(keys.take(i + 1).drop_last() =~= keys.take(i as int));
            }
            match parsed {
                Ok(keybinding) => {
                    output.push(
                        ParseOutput::Hotkey(Hotkey { keybinding, command: commands[i].clone() }),
                    );
                },
                Err(error) => {
                    proof {
                        lemma_fault_in_prefix(keys, i + 1);
                    }
                    return Err(error);
                },
            }
            i += 1;
        }
        proof {
            assert(keys.take(i as int) =~= keys);
            assert(output_views(output@) =~= hotkeys(keys, all_commands));
        }
        return Ok(output);
    }
    let tuples = chord_sequences(&segments);
    let ghost sequences = tuples.deep_view();
    let mut chords: Vec<Vec<KeyBinding>> = Vec::new();
    let mut t: usize = 0;
    while t < tuples.len()
        invariant
            t <= tuples.len(),
            sequences == tuples.deep_view(),
            chords.len() == t,
            first_fault_of_tuples(sequences.take(t as int)) is None,
            forall|j: int|
                0 <= j < t ==> binding_views((#[trigger] chords[j])@) == parsed_all(sequences[j]),
        decreases tuples.len() - t,
    {
        proof {
            assert(sequences.take(t + 1).drop_last() =~= sequences.take(t as int));
        }
        match parse_all(&tuples[t], keyline.linenumber, &path) {
            Ok(sequence) => {
                chords.push(sequence);
            },
            Err(error) => {
                proof {
                    lemma_fault_in_first_tuples(sequences, t + 1);
                }
                return Err(error);
            },
        }
        t += 1;
    }
    proof {
        assert(sequences.take(t as int) =~= sequences);
    }
    let ghost n = tuples.len() as int;
    let mut next: usize = 0;
    let mut e: usize = 0;
    while e < entries.len()
        invariant
            e <= entries.len(),
            n == tuples.len(),
            chords.len() == tuples.len(),
            entries.len() * n <= commands.len(),
            next == e * n,
            keys == entries.deep_view(),
            all_commands == commands.deep_view(),
            sequences == tuples.deep_view(),
            chord_views(chords@) == parsed_tuples(sequences),
            output.len() == e,
            first_fault(keys.take(e as int)) is None,
            forall|j: int|
                0 <= j < e ==> (#[trigger] output[j])@ == key_chords(keys, sequences, all_commands)[j],
        decreases entries.len() - e,
    {
        proof {
            lemma_slice_in_range(e as int, entries.len() as int, n);
        }
        let mut drawn: Vec<String> = Vec::new();
        let mut j: usize = 0;
        while j < chords.len()
            invariant
                j <= chords.len(),
                chords.len() == n,
                next == e * n + j,
                e * n + n <= commands.len(),
                all_commands == commands.deep_view(),
                drawn.deep_view() == all_commands.subrange(e * n, e * n + j),
            decreases chords.len() - j,
        {
            drawn.push(commands[next].clone());
            next = next + 1;
            j += 1;
        }
        let parsed = parse_keybinding(entries[e].as_str(), keyline.linenumber, path.clone());
        proof {
            assert(keys.take(e + 1).drop_last() =~= keys.take(e as int));
        }
        match parsed {
            Ok(entry) => {
                output.push(
                    ParseOutput::KeyChord(
                        KeyChord { entry, chords: copy_chords(&chords), commands: drawn },
                    ),
                );
            },
            Err(error) => {
                proof {
                    lemma_fault_in_prefix(keys, e + 1);
                }
                return Err(error);
            },
        }
        e += 1;
    }
    proof {
        assert(keys.take(e as int) =~= keys);
        assert(output_views(output@) =~= key_chords(keys, sequences, all_commands));
    }
    Ok(output)
}

} // verus!
