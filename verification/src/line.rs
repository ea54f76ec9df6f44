//! The lines of a configuration: what kind each is, and how lines that end
//! in a backslash are joined with the line that follows.
use crate::text::{
    append,
    chars_of,
    lines_of,
    split_lines,
    string_of,
    subrange,
    texts,
    trim,
    trimmed,
};
use vstd::prelude::*;

verus! {

/// The character that starts a comment.
pub const COMMENT_SYMBOL: char = '#';

/// What a line of a configuration is.
#[derive(PartialEq, Eq, Debug, Clone, Copy, Structural)]
pub enum LineType {
    /// A key expression, or several that form a chord.
    Key,
    /// The command of the key line before it.
    Command,
    /// Kept for statements of other kinds; no line is one so far.
    Statement,
    /// A comment or an empty line.
    Other,
}

/// A line with its kind and its number in the file, counted from one.
#[derive(Debug, PartialEq)]
pub struct Line {
    pub content: String,
    pub linetype: LineType,
    pub linenumber: u32,
}

/// The mathematical value of a `Line`.
pub struct LineView {
    pub content: Seq<char>,
    pub linetype: LineType,
    pub linenumber: u32,
}

impl View for Line {
    type V = LineView;

    open spec fn view(&self) -> LineView {
        LineView { content: self.content@, linetype: self.linetype, linenumber: self.linenumber }
    }
}

/// The values of the lines of a vector.
pub open spec fn line_views(lines: Seq<Line>) -> Seq<LineView> {
    Seq::new(lines.len(), |i: int| lines[i]@)
}

/// The kind of a line. A line that is empty once trimmed, or then starts
/// with the comment character, is `Other`; of the rest, a line that starts
/// with a space or a tab is a command, and any other is a key line.
pub open spec fn line_kind(line: Seq<char>) -> LineType {
    if trim(line).len() == 0 || trim(line)[0] == '#' {
        LineType::Other
    } else if line[0] == ' ' || line[0] == '\t' {
        LineType::Command
    } else {
        LineType::Key
    }
}

/// Whether a text ends in a backslash, and so goes on in the next line.
pub open spec fn continues(content: Seq<char>) -> bool {
    content.len() > 0 && content.last() == '\\'
}

/// The line with its content trimmed.
pub open spec fn trimmed_line(line: LineView) -> LineView {
    LineView { content: trim(line.content), ..line }
}

/// A line that ends in a backslash, joined with the line after it: the
/// backslash goes, and the content of the other line follows directly if it
/// is of the same kind. A line of another kind is dropped. Kind and number
/// stay those of the first line.
pub open spec fn joined(line: LineView, next: LineView) -> LineView {
    LineView {
        content: if line.linetype == next.linetype {
            line.content.drop_last() + next.content
        } else {
            line.content.drop_last()
        },
        ..line
    }
}

/// The raw lines of a text with their kinds and numbers.
pub open spec fn numbered(raw: Seq<Seq<char>>) -> Seq<LineView> {
    Seq::new(
        raw.len(),
        |i: int| LineView { content: raw[i], linetype: line_kind(raw[i]), linenumber: (i + 1) as u32 },
    )
}

/// Whether a line takes part in the configuration: it is no comment and not
/// empty.
pub open spec fn is_relevant(line: LineView) -> bool {
    line.linetype != LineType::Other
}

/// The logical lines that the lines `rest` make after a pending line: while
/// the pending line ends in a backslash it takes up the next line, trimmed;
/// once it does not, it is done and the next line, trimmed, is pending. At
/// the end the pending line is done, whatever it ends in.
pub open spec fn join_after(pending: LineView, rest: Seq<LineView>) -> Seq<LineView>
    decreases rest.len(),
{
    if rest.len() == 0 {
        seq![pending]
    } else if continues(pending.content) {
        join_after(joined(pending, trimmed_line(rest[0])), rest.drop_first())
    } else {
        seq![pending] + join_after(trimmed_line(rest[0]), rest.drop_first())
    }
}

/// The logical lines of a sequence of lines: the first line, trimmed, is
/// pending, and the rest follow as `join_after` says. No lines make none.
pub open spec fn join_all(lines: Seq<LineView>) -> Seq<LineView> {
    if lines.len() == 0 {
        seq![]
    } else {
        join_after(trimmed_line(lines[0]), lines.drop_first())
    }
}

impl Clone for Line {
    fn clone(&self) -> (copy: Line)
        ensures
            copy@ == self@,
    {
        Line {
            content: self.content.clone(),
            linetype: self.linetype,
            linenumber: self.linenumber,
        }
    }
}

impl Line {
    /// The line with the given content, kind and number.
    pub fn new(content: String, linetype: LineType, linenumber: u32) -> (line: Line)
        ensures
            line@ == (LineView { content: content@, linetype, linenumber }),
    {
        Line { content, linetype, linenumber }
    }

    /// The kind of a line of text.
    pub fn mark_line(line: &str) -> (kind: LineType)
        ensures
            kind == line_kind(line@),
    {
        let chars = chars_of(line);
        let bare = trimmed(&chars);
        if bare.len() == 0 || bare[0] == COMMENT_SYMBOL {
            LineType::Other
        } else {
            if chars[0] == ' ' || chars[0] == '\t' {
                LineType::Command
            } else {
                LineType::Key
            }
        }
    }

    /// The line with the given content and number, of the kind that the
    /// content shows.
    pub fn from_str(content: &str, linenumber: u32) -> (line: Line)
        ensures
            line@ == (LineView { content: content@, linetype: line_kind(content@), linenumber }),
    {
        Line { content: string_of(&chars_of(content)), linetype: Line::mark_line(content), linenumber }
    }

    /// Joins a line that ends in a backslash with the line after it.
    pub fn join_line(self, other: &Line) -> (line: Line)
        requires
            continues(self.content@),
        ensures
            line@ == joined(self@, other@),
    {
        let chars = chars_of(self.content.as_str());
        let mut content = subrange(&chars, 0, chars.len() - 1);
        if self.linetype == other.linetype {
            append(&mut content, &chars_of(other.content.as_str()));
        }
        Line { content: string_of(&content), linetype: self.linetype, linenumber: self.linenumber }
    }

    /// The line with its content trimmed.
    pub fn trim(&self) -> (line: Line)
        ensures
            line@ == trimmed_line(self@),
    {
        Line {
            content: string_of(&trimmed(&chars_of(self.content.as_str()))),
            linetype: self.linetype,
            linenumber: self.linenumber,
        }
    }

    /// Whether the line ends in a backslash and is to be joined with the next.
    pub fn is_to_join(&self) -> (yes: bool)
        ensures
            yes == continues(self.content@),
    {
        let chars = chars_of(self.content.as_str());
        chars.len() > 0 && chars[chars.len() - 1] == '\\'
    }
}

/// The lines of a text that are neither empty nor comments, each with its
/// kind and its number in the text, untrimmed and in their order.
pub fn load_to_lines(content: &str) -> (lines: Vec<Line>)
    requires
        split_lines(content@).len() <= u32::MAX,
    ensures
        line_views(lines@) == numbered(split_lines(content@)).filter(|l: LineView| is_relevant(l)),
{
    let raw = lines_of(&chars_of(content));
    let ghost all = numbered(split_lines(content@));
    let ghost relevant = |l: LineView| is_relevant(l);
    let mut lines: Vec<Line> = Vec::new();
    let mut linenumber: u32 = 0;
    let mut i: usize = 0;
    while i < raw.len()
        invariant
            i <= raw.len(),
            linenumber == i,
            raw.len() <= u32::MAX,
            texts(raw@) == split_lines(content@),
            all == numbered(split_lines(content@)),
            relevant == |l: LineView| is_relevant(l),
            line_views(lines@) == all.take(i as int).filter(relevant),
        decreases raw.len() - i,
    {
        linenumber += 1;
        let text = string_of(&raw[i]);
        let current = Line::from_str(text.as_str(), linenumber);
        proof {
            reveal(Seq::filter);
            assert(all.take(i + 1).drop_last() =~= all.take(i as int));
        }
        if current.linetype != LineType::Other {
            lines.push(current);
        }
        i += 1;
    }
    assert(all.take(i as int) =~= all);
    lines
}

/// The logical lines of a sequence of lines. Every line is trimmed. A line
/// that ends in a backslash loses it and is joined with the line after it,
/// as often as the result ends in a backslash again; only a line of the same
/// kind adds its content.
pub fn join_lines(lines: Vec<Line>) -> (joined_lines: Vec<Line>)
    ensures
        line_views(joined_lines@) == join_all(line_views(lines@)),
{
    let mut joined_lines: Vec<Line> = Vec::new();
    if lines.len() == 0 {
        return joined_lines;
    }
    let ghost all = line_views(lines@);
    let mut pending = lines[0].trim();
    let mut i: usize = 1;
    while i < lines.len()
        invariant
            1 <= i <= lines.len(),
            all == line_views(lines@),
            join_all(all) == line_views(joined_lines@) + join_after(pending@, all.skip(i as int)),
        decreases lines.len() - i,
    {
        let next = lines[i].trim();
        proof {
            assert(all.skip(i as int).drop_first() =~= all.skip(i + 1));
        }
        if pending.is_to_join() {
            pending = pending.join_line(&next);
        } else {
            joined_lines.push(pending);
            pending = next;
        }
        i += 1;
    }
    joined_lines.push(pending);
    joined_lines
}

} // verus!
