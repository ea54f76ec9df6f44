//! Compiles a hotkey configuration into key bindings.
//!
//! A configuration is a text of key lines, each followed by an indented
//! command line. Both may hold groups in curly braces that stand for several
//! lines at once, and a key line may chain several key expressions into a
//! chord. The modules follow the way of a configuration through the compiler:
//!
//! - `config` finds the files that a configuration imports;
//! - `line` tells key lines from command lines and joins continued lines;
//! - `expand` writes out the groups in curly braces;
//! - `binding` reads a key expression, with the key names of `keysym`;
//! - `assemble` pairs the key expressions of a line with its commands, and
//!   gives the hotkeys and key chords of `hotkey`.
//!
//! `text` holds the handling of characters that all of them share, `product`
//! the cartesian product behind groups and chords, and `error` what can go
//! wrong.
pub mod assemble;
pub mod binding;
pub mod config;
pub mod error;
pub mod expand;
pub mod hotkey;
pub mod keysym;
pub mod line;
pub mod product;
pub mod text;
