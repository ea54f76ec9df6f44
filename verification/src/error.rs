//! What can go wrong while a configuration is compiled.
use crate::text::{append, chars_of, string_of};
use vstd::prelude::*;

verus! {

/// A text in double quotes, with the escapes that `Debug` gives a string.
pub uninterp spec fn quoted(text: Seq<char>) -> Seq<char>;

/// `format!` with `{:?}` for a string slice: the slice as `Debug` writes it,
/// in double quotes and with what needs it escaped. What is written depends
/// on the characters alone.
#[verifier::external_body]
fn quote(text: &str) -> (out: String)
    ensures
        out@ == quoted(text@),
{
    format!("{:?}", text)
}

/// The decimal digit for a number below ten.
pub open spec fn digit(d: nat) -> char {
    ('0' as u8 + d) as u8 as char
}

/// A number written in decimal, without leading zeros.
pub open spec fn decimal(n: nat) -> Seq<char>
    decreases n,
{
    if n < 10 {
        seq![digit(n)]
    } else {
        decimal(n / 10).push(digit(n % 10))
    }
}

/// What a `ParseError` says.
pub open spec fn parse_error_message(error: ParseErrorView) -> Seq<char> {
    match error {
        ParseErrorView::UnknownSymbol(path, line) => "Error parsing config file "@ + quoted(path)
            + ". Unknown symbol at line "@ + decimal(line as nat) + "."@,
        ParseErrorView::InvalidKeysym(path, line) => "Error parsing config file "@ + quoted(path)
            + ". Invalid keysym at line "@ + decimal(line as nat) + "."@,
        ParseErrorView::InvalidModifier(path, line) => "Error parsing config file "@ + quoted(
            path,
        ) + ". Invalid modifier at line "@ + decimal(line as nat) + "."@,
    }
}

/// What an `Error` says.
pub open spec fn error_message(error: ErrorView) -> Seq<char> {
    match error {
        ErrorView::ConfigNotFound => "Config file not found."@,
        ErrorView::Io(reason) => "I/O Error while parsing config file: "@ + reason,
        ErrorView::InvalidConfig(error) => parse_error_message(error),
    }
}

/// Writes a number in decimal at the end of `out`.
fn push_decimal(out: &mut Vec<char>, n: u32)
    ensures
        final(out)@ == old(out)@ + decimal(n as nat),
    decreases n,
{
    if n >= 10 {
        push_decimal(out, n / 10);
    }
    let d: u8 = (n % 10) as u8;
    out.push(('0' as u8 + d) as char);
}

/// The message for a key line that is not valid, where `what` says what is
/// wrong with it.
fn describe(path: &String, what: &str, line: u32) -> (out: String)
    ensures
        out@ == "Error parsing config file "@ + quoted(path@) + what@ + decimal(line as nat)
            + "."@,
{
    let mut text = chars_of("Error parsing config file ");
    append(&mut text, &chars_of(quote(path.as_str()).as_str()));
    append(&mut text, &chars_of(what));
    push_decimal(&mut text, line);
    append(&mut text, &chars_of("."));
    string_of(&text)
}

/// A key line that could not be read, with the path of its file and the
/// number of the line, counted from one.
#[derive(Debug, PartialEq)]
pub enum ParseError {
    UnknownSymbol(String, u32),
    InvalidModifier(String, u32),
    InvalidKeysym(String, u32),
}

/// Why a configuration could not be compiled.
#[derive(Debug)]
pub enum Error {
    /// A configuration file, the root or an imported one, does not exist.
    ConfigNotFound,
    /// A file could not be read; the text says why.
    Io(String),
    /// A key line is not valid.
    InvalidConfig(ParseError),
}

/// The mathematical value of a `ParseError`.
pub enum ParseErrorView {
    UnknownSymbol(Seq<char>, u32),
    InvalidModifier(Seq<char>, u32),
    InvalidKeysym(Seq<char>, u32),
}

/// The mathematical value of an `Error`.
pub enum ErrorView {
    ConfigNotFound,
    Io(Seq<char>),
    InvalidConfig(ParseErrorView),
}

impl View for ParseError {
    type V = ParseErrorView;

    open spec fn view(&self) -> ParseErrorView {
        match self {
            ParseError::UnknownSymbol(path, line) => ParseErrorView::UnknownSymbol(path@, *line),
            ParseError::InvalidModifier(path, line) => ParseErrorView::InvalidModifier(
                path@,
                *line,
            ),
            ParseError::InvalidKeysym(path, line) => ParseErrorView::InvalidKeysym(path@, *line),
        }
    }
}

impl View for Error {
    type V = ErrorView;

    open spec fn view(&self) -> ErrorView {
        match self {
            Error::ConfigNotFound => ErrorView::ConfigNotFound,
            Error::Io(reason) => ErrorView::Io(reason@),
            Error::InvalidConfig(error) => ErrorView::InvalidConfig(error@),
        }
    }
}

impl ParseError {
    /// What the error says, as a sentence for the user.
    pub fn message(&self) -> (text: String)
        ensures
            text@ == parse_error_message(self@),
    {
        match self {
            ParseError::UnknownSymbol(path, line) => describe(
                path,
                ". Unknown symbol at line ",
                *line,
            ),
            ParseError::InvalidKeysym(path, line) => describe(
                path,
                ". Invalid keysym at line ",
                *line,
            ),
            ParseError::InvalidModifier(path, line) => describe(
                path,
                ". Invalid modifier at line ",
                *line,
            ),
        }
    }
}

impl Error {
    /// What the error says, as a sentence for the user.
    pub fn message(&self) -> (text: String)
        ensures
            text@ == error_message(self@),
    {
        match self {
            Error::ConfigNotFound => string_of(&chars_of("Config file not found.")),
            Error::Io(reason) => {
                let mut text = chars_of("I/O Error while parsing config file: ");
                append(&mut text, &chars_of(reason.as_str()));
                string_of(&text)
            },
            Error::InvalidConfig(error) => error.message(),
        }
    }

    /// The error for a file that could not be read: `ConfigNotFound` where
    /// the file does not exist, and else `Io` with the reason given.
    pub fn from_io(not_found: bool, reason: String) -> (error: Error)
        ensures
            error@ == if not_found {
                ErrorView::ConfigNotFound
            } else {
                ErrorView::Io(reason@)
            },
    {
        if not_found {
            Error::ConfigNotFound
        } else {
            Error::Io(reason)
        }
    }
}

} // verus!
