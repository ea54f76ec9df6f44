//! Brace expansion.
//!
//! A line may hold groups in curly braces, such as `{a, b}` or `{1-4}`. Each
//! group stands for a list of tokens, and the line stands for every line that
//! comes from putting one token of each group in the group's place.
use crate::product::{
    cartesian_product,
    count,
    is_choice,
    lemma_product_index,
    lemma_product_len,
    lemma_product_nonempty,
    lemma_product_tuple_len,
    pick,
    product,
    rank,
};
use crate::text::{
    append,
    chars_of,
    first_index,
    lemma_char_lower_bound,
    lemma_first_index,
    lemma_first_index_is,
    split,
    split_on,
    string_of,
    subrange,
    texts,
    trim_all,
    trimmed,
};
use vstd::prelude::*;
use vstd::utf8::is_ascii_chars;

verus! {

/// Whether opening and closing braces take turns in `s`, read from left to
/// right, starting inside a group or not, and ending outside of one. A brace
/// that opens inside a group, one that closes outside of any, and a group
/// left open at the end all break the turn.
pub open spec fn braces_alternate(s: Seq<char>, inside: bool) -> bool
    decreases s.len(),
{
    if s.len() == 0 {
        !inside
    } else if s[0] == '{' {
        !inside && braces_alternate(s.drop_first(), true)
    } else if s[0] == '}' {
        inside && braces_alternate(s.drop_first(), false)
    } else {
        braces_alternate(s.drop_first(), inside)
    }
}

/// Whether a line is expanded at all: it holds both braces, is ASCII
/// throughout, and its braces pair up without nesting.
pub open spec fn has_groups(line: Seq<char>) -> bool {
    &&& line.contains('{')
    &&& line.contains('}')
    &&& is_ascii_chars(line)
    &&& braces_alternate(line, false)
}

/// Whether `s` starts another group: its first opening brace comes before
/// its first closing brace.
pub open spec fn starts_group(s: Seq<char>) -> bool {
    0 <= first_index(s, '{') < first_index(s, '}') < s.len()
}

/// The text after the first closing brace.
pub open spec fn after_group(s: Seq<char>) -> Seq<char> {
    s.skip(first_index(s, '}') + 1)
}

/// The fixed segments of a line: the text before each group, in order.
pub open spec fn fixed_parts(s: Seq<char>) -> Seq<Seq<char>>
    decreases s.len(),
{
    if starts_group(s) {
        seq![s.take(first_index(s, '{'))] + fixed_parts(after_group(s))
    } else {
        seq![]
    }
}

/// The groups of a line: the text between each pair of braces, in order.
pub open spec fn groups(s: Seq<char>) -> Seq<Seq<char>>
    decreases s.len(),
{
    if starts_group(s) {
        seq![s.subrange(first_index(s, '{') + 1, first_index(s, '}'))] + groups(after_group(s))
    } else {
        seq![]
    }
}

/// The tail of a line: the text after its last group.
pub open spec fn tail_part(s: Seq<char>) -> Seq<char>
    decreases s.len(),
{
    if starts_group(s) {
        tail_part(after_group(s))
    } else {
        s
    }
}

/// The text with every backslash that is followed by a comma replaced,
/// together with that comma, by the word `comma`.
pub open spec fn unescape_commas(s: Seq<char>) -> Seq<char>
    decreases s.len(),
{
    if s.len() >= 2 && s[0] == '\\' && s[1] == ',' {
        "comma"@ + unescape_commas(s.skip(2))
    } else if s.len() > 0 {
        seq![s[0]] + unescape_commas(s.drop_first())
    } else {
        s
    }
}

/// The lower bound of a token read as a range.
pub open spec fn range_first(token: Seq<char>) -> char {
    split(token, '-')[0][0]
}

/// The upper bound of a token read as a range.
pub open spec fn range_last(token: Seq<char>) -> char {
    split(token, '-')[1][0]
}

/// Whether a token is a range: it has exactly one hyphen, with exactly one
/// character on either side, both of them ASCII and the first not after the
/// second.
pub open spec fn is_range(token: Seq<char>) -> bool {
    let bounds = split(token, '-');
    &&& bounds.len() == 2
    &&& bounds[0].len() == 1
    &&& bounds[1].len() == 1
    &&& range_first(token) <= range_last(token) <= '\u{7f}'
}

/// The characters from `first` to `last`, both included, each as a token.
pub open spec fn range_tokens(first: char, last: char) -> Seq<Seq<char>> {
    Seq::new(
        (last as u8 - first as u8 + 1) as nat,
        |k: int| seq![(first as u8 + k) as u8 as char],
    )
}

/// What a token stands for: the characters of its range if it is one, and
/// else the token itself.
pub open spec fn expand_token(token: Seq<char>) -> Seq<Seq<char>> {
    if is_range(token) {
        range_tokens(range_first(token), range_last(token))
    } else {
        seq![token]
    }
}

/// What a list of tokens stands for, token after token.
pub open spec fn expand_tokens(tokens: Seq<Seq<char>>) -> Seq<Seq<char>>
    decreases tokens.len(),
{
    if tokens.len() == 0 {
        seq![]
    } else {
        expand_tokens(tokens.drop_last()) + expand_token(tokens.last())
    }
}

/// The tokens of a group: its text with escaped commas replaced, split at the
/// commas, each piece trimmed, and ranges written out.
pub open spec fn group_tokens(group: Seq<char>) -> Seq<Seq<char>> {
    expand_tokens(trim_all(split(unescape_commas(group), ',')))
}

/// The token list of each group of a line.
pub open spec fn token_lists(line: Seq<char>) -> Seq<Seq<Seq<char>>> {
    Seq::new(groups(line).len(), |k: int| group_tokens(groups(line)[k]))
}

/// Fixed segments and tokens in turn: the first segment, the first token, the
/// second segment, the second token, and so on.
pub open spec fn interleave(fixed: Seq<Seq<char>>, tokens: Seq<Seq<char>>) -> Seq<char>
    decreases fixed.len(),
{
    if fixed.len() == 0 {
        seq![]
    } else {
        interleave(fixed.drop_last(), tokens.drop_last()) + fixed.last() + tokens.last()
    }
}

/// The line that comes from putting the given tokens in the groups' places.
pub open spec fn assemble(line: Seq<char>, tokens: Seq<Seq<char>>) -> Seq<char> {
    interleave(fixed_parts(line), tokens) + tail_part(line)
}

/// The expansion of a line. A line without groups, or with braces that do not
/// pair up, or with a character outside ASCII, stands for itself. Any other
/// line stands for one line per tuple of the product of its token lists, in
/// the order of that product.
pub open spec fn expand(line: Seq<char>) -> Seq<Seq<char>> {
    if has_groups(line) {
        let tuples = product(token_lists(line));
        Seq::new(tuples.len(), |i: int| assemble(line, tuples[i]))
    } else {
        seq![line]
    }
}

/// A line whose braces are unmatched or nested expands to itself alone.
pub proof fn lemma_malformed_expands_to_itself(line: Seq<char>)
    requires
        !braces_alternate(line, false),
    ensures
        expand(line) == seq![line],
{
}

/// A line with groups expands to as many lines as the sizes of its token
/// lists multiply to, and the line that takes from each group the token at a
/// chosen position stands at the lexicographic rank of that choice, the
/// leftmost group being the most significant.
pub proof fn lemma_expand_in_product_order(line: Seq<char>, choice: Seq<int>)
    requires
        has_groups(line),
        is_choice(token_lists(line), choice),
    ensures
        expand(line).len() == count(token_lists(line)),
        0 <= rank(token_lists(line), choice) < expand(line).len(),
        expand(line)[rank(token_lists(line), choice)] == assemble(
            line,
            pick(token_lists(line), choice),
        ),
{
    lemma_product_len(token_lists(line));
    lemma_product_index(token_lists(line), choice);
}

/// An expansion is never empty.
pub proof fn lemma_expand_nonempty(line: Seq<char>)
    ensures
        expand(line).len() > 0,
{
    if has_groups(line) {
        let lists = token_lists(line);
        lemma_product_nonempty(lists);
    }
}

/// The fixed segments, the groups and the tail of a line.
struct Template {
    fixed: Vec<Vec<char>>,
    groups: Vec<Vec<char>>,
    tail: Vec<char>,
}

/// Whether no position of `s` from `from` up to `to` holds a brace.
spec fn no_brace(s: Seq<char>, from: int, to: int) -> bool {
    forall|j: int| from <= j < to ==> s[j] != '{' && s[j] != '}'
}

/// Whether every character is ASCII.
fn is_ascii_text(v: &Vec<char>) -> (b: bool)
    ensures
        b == is_ascii_chars(v@),
{
    let mut i: usize = 0;
    while i < v.len()
        invariant
            i <= v.len(),
            forall|j: int| 0 <= j < i ==> '\0' <= #[trigger] v@[j] <= '\u{7f}',
        decreases v.len() - i,
    {
        let c = v[i];
        if c > '\u{7f}' {
            return false;
        }
        proof {
            lemma_char_lower_bound(c);
        }
        i += 1;
    }
    true
}

/// Takes a line apart at its braces, if it holds an opening brace and its
/// braces pair up.
fn split_template(v: &Vec<char>) -> (parts: Option<Template>)
    ensures
        parts is Some <==> v@.contains('{') && braces_alternate(v@, false),
        parts is Some ==> {
            let t = parts->Some_0;
            &&& v@.contains('}')
            &&& texts(t.fixed@) == fixed_parts(v@)
            &&& texts(t.groups@) == groups(v@)
            &&& t.tail@ == tail_part(v@)
            &&& t.groups.len() > 0
        },
{
    let mut fixed: Vec<Vec<char>> = Vec::new();
    let mut groups: Vec<Vec<char>> = Vec::new();
    let mut start: usize = 0;
    let mut open: usize = 0;
    let mut inside = false;
    let mut i: usize = 0;
    proof {
        assert(v@.skip(0) =~= v@);
    }
    while i < v.len()
        invariant
            start <= i <= v.len(),
            braces_alternate(v@, false) == braces_alternate(v@.skip(i as int), inside),
            inside ==> start <= open < i && v[open as int] == '{' && no_brace(
                v@,
                start as int,
                open as int,
            ) && no_brace(v@, open + 1, i as int),
            !inside ==> no_brace(v@, start as int, i as int),
            fixed_parts(v@) == texts(fixed@) + fixed_parts(v@.skip(start as int)),
            self::groups(v@) == texts(groups@) + self::groups(v@.skip(start as int)),
            tail_part(v@) == tail_part(v@.skip(start as int)),
            groups.len() == 0 ==> start == 0,
            groups.len() > 0 ==> v@.contains('{') && v@.contains('}'),
        decreases v.len() - i,
    {
        let c = v[i];
        proof {
            assert(v@.skip(i as int).drop_first() =~= v@.skip(i + 1));
        }
        if c == '{' {
            if inside {
                return None;
            }
            inside = true;
            open = i;
        } else if c == '}' {
            if !inside {
                return None;
            }
            let segment = subrange(v, start, open);
            let group = subrange(v, open + 1, i);
            proof {
                let rest = v@.skip(start as int);
                lemma_first_index_is(rest, '{', open - start);
                lemma_first_index_is(rest, '}', i - start);
                assert(rest.take(open - start) =~= segment@);
                assert(rest.subrange(open - start + 1, i - start) =~= group@);
                assert(after_group(rest) =~= v@.skip(i + 1));
            }
            fixed.push(segment);
            groups.push(group);
            start = i + 1;
            inside = false;
        }
        i += 1;
    }
    if inside {
        return None;
    }
    if groups.len() == 0 {
        return None;
    }
    let tail = subrange(v, start, v.len());
    proof {
        let rest = v@.skip(start as int);
        lemma_first_index_is(rest, '{', rest.len() as int);
        assert(rest =~= tail@);
        assert(texts(fixed@) + Seq::<Seq<char>>::empty() =~= texts(fixed@));
        assert(texts(groups@) + Seq::<Seq<char>>::empty() =~= texts(groups@));
    }
    Some(Template { fixed, groups, tail })
}

/// The text with escaped commas replaced by the word `comma`.
fn unescaped(v: &Vec<char>) -> (out: Vec<char>)
    ensures
        out@ == unescape_commas(v@),
{
    let word = chars_of("comma");
    let mut out: Vec<char> = Vec::new();
    let mut i: usize = 0;
    assert(v@.skip(0) =~= v@);
    while i < v.len()
        invariant
            i <= v.len(),
            word@ == "comma"@,
            unescape_commas(v@) == out@ + unescape_commas(v@.skip(i as int)),
        decreases v.len() - i,
    {
        let ghost rest = v@.skip(i as int);
        if v[i] == '\\' && i + 1 < v.len() && v[i + 1] == ',' {
            append(&mut out, &word);
            proof {
                assert(rest.skip(2) =~= v@.skip(i + 2));
            }
            i += 2;
        } else {
            out.push(v[i]);
            proof {
                assert(rest.drop_first() =~= v@.skip(i + 1));
            }
            i += 1;
        }
    }
    out
}

/// The bounds of a token that is a range.
fn range_bounds(token: &Vec<char>) -> (bounds: Option<(char, char)>)
    ensures
        bounds is Some <==> is_range(token@),
        bounds is Some ==> bounds->Some_0 == (range_first(token@), range_last(token@)),
{
    let pieces = split_on(token, '-');
    if pieces.len() != 2 {
        return None;
    }
    let first = &pieces[0];
    let last = &pieces[1];
    if first.len() != 1 || last.len() != 1 {
        return None;
    }
    if first[0] <= last[0] && last[0] <= '\u{7f}' {
        Some((first[0], last[0]))
    } else {
        None
    }
}

/// The tokens that one token stands for, added to `out`.
fn push_expanded(out: &mut Vec<String>, token: &Vec<char>)
    ensures
        final(out).deep_view() == old(out).deep_view() + expand_token(token@),
{
    let ghost before = out.deep_view();
    match range_bounds(token) {
        Some((first, last)) => {
            let low: u8 = first as u8;
            let high: u8 = last as u8;
            let mut n: u8 = low;
            while n <= high
                invariant
                    low <= n <= high + 1,
                    high <= 0x7f,
                    low == first as u8,
                    high == last as u8,
                    out.deep_view() == before + range_tokens(first, last).take(n - low),
                decreases high + 1 - n,
            {
                let mut one: Vec<char> = Vec::new();
                one.push(n as char);
                let ghost prior = out.deep_view();
                out.push(string_of(&one));
                proof {
                    assert(out.deep_view() =~= prior.push(one@));
                }
                n = n + 1;
            }
        },
        None => {
            out.push(string_of(token));
        },
    }
}

/// The tokens that a group stands for.
fn tokens_of_group(group: &Vec<char>) -> (out: Vec<String>)
    ensures
        out.deep_view() == group_tokens(group@),
{
    let text = unescaped(group);
    let pieces = split_on(&text, ',');
    let ghost tokens = trim_all(split(unescape_commas(group@), ','));
    let mut out: Vec<String> = Vec::new();
    let mut i: usize = 0;
    while i < pieces.len()
        invariant
            i <= pieces.len(),
            texts(pieces@) == split(unescape_commas(group@), ','),
            tokens == trim_all(split(unescape_commas(group@), ',')),
            out.deep_view() == expand_tokens(tokens.take(i as int)),
        decreases pieces.len() - i,
    {
        let token = trimmed(&pieces[i]);
        proof {
            assert(tokens.take(i + 1).drop_last() =~= tokens.take(i as int));
        }
        push_expanded(&mut out, &token);
        i += 1;
    }
    assert(tokens.take(i as int) =~= tokens);
    out
}

/// The line that comes from putting the given tokens between the fixed
/// segments and adding the tail.
fn assemble_line(fixed: &Vec<Vec<char>>, tokens: &Vec<String>, tail: &Vec<char>) -> (out: String)
    requires
        tokens.len() == fixed.len(),
    ensures
        out@ == interleave(texts(fixed@), tokens.deep_view()) + tail@,
{
    let mut line: Vec<char> = Vec::new();
    let mut k: usize = 0;
    let ghost segments = texts(fixed@);
    let ghost picked = tokens.deep_view();
    while k < fixed.len()
        invariant
            k <= fixed.len(),
            tokens.len() == fixed.len(),
            segments == texts(fixed@),
            picked == tokens.deep_view(),
            line@ == interleave(segments.take(k as int), picked.take(k as int)),
        decreases fixed.len() - k,
    {
        append(&mut line, &fixed[k]);
        let token = chars_of(tokens[k].as_str());
        append(&mut line, &token);
        proof {
            assert(segments.take(k + 1).drop_last() =~= segments.take(k as int));
            assert(picked.take(k + 1).drop_last() =~= picked.take(k as int));
        }
        k += 1;
    }
    proof {
        assert(segments.take(k as int) =~= segments);
        assert(picked.take(k as int) =~= picked);
    }
    append(&mut line, tail);
    string_of(&line)
}

/// Expands the groups of a line: the result holds, in the order of the
/// product of the groups' token lists, every line that takes one token from
/// each group. A line that has no group, a brace without its partner, a
/// brace inside a group or a character outside ASCII comes back alone and
/// unchanged.
pub fn extract_curly_brace(line: &str) -> (out: Vec<String>)
    ensures
        out.deep_view() == expand(line@),
        out.len() >= 1,
        !braces_alternate(line@, false) ==> out.deep_view() == seq![line@],
{
    proof {
        lemma_expand_nonempty(line@);
    }
    let chars = chars_of(line);
    let template = if is_ascii_text(&chars) {
        split_template(&chars)
    } else {
        None
    };
    let template = match template {
        Some(template) => template,
        None => {
            let mut out: Vec<String> = Vec::new();
            out.push(string_of(&chars));
            return out;
        },
    };
    let mut lists: Vec<Vec<String>> = Vec::new();
    let mut g: usize = 0;
    while g < template.groups.len()
        invariant
            g <= template.groups.len(),
            lists.len() == g,
            texts(template.groups@) == groups(line@),
            forall|k: int| 0 <= k < g ==> (#[trigger] lists[k]).deep_view() == group_tokens(
                groups(line@)[k],
            ),
        decreases template.groups.len() - g,
    {
        lists.push(tokens_of_group(&template.groups[g]));
        g += 1;
    }
    assert(lists.deep_view() =~= token_lists(line@));
    let tuples = cartesian_product(&lists);
    let mut out: Vec<String> = Vec::new();
    let mut i: usize = 0;
    while i < tuples.len()
        invariant
            i <= tuples.len(),
            out.len() == i,
            tuples.deep_view() == product(token_lists(line@)),
            texts(template.fixed@) == fixed_parts(line@),
            template.tail@ == tail_part(line@),
            texts(template.groups@) == groups(line@),
            forall|j: int| 0 <= j < i ==> (#[trigger] out[j])@ == assemble(
                line@,
                tuples.deep_view()[j],
            ),
        decreases tuples.len() - i,
    {
        proof {
            lemma_product_tuple_len(token_lists(line@), i as int);
            lemma_parts_count(line@);
        }
        out.push(assemble_line(&template.fixed, &tuples[i], &template.tail));
        i += 1;
    }
    out
}

/// A line has as many fixed segments as groups.
pub proof fn lemma_parts_count(s: Seq<char>)
    ensures
        fixed_parts(s).len() == groups(s).len(),
    decreases s.len(),
{
    if starts_group(s) {
        lemma_first_index(s, '}');
        lemma_parts_count(after_group(s));
    }
}

} // verus!
