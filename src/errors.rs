//! Errors of parsing and of running commands.

use vstd::prelude::*;
use crate::builtins::BuiltInError;

verus! {

/// Why a command could not run. The text of an operating-system error is
/// carried as its message.
#[derive(Debug)]
pub enum CommandError {
    IO(String),
    BuiltInError(BuiltInError),
}

/// Why a line gave no command. `Comment` and `InputEmpty` are no failures:
/// the line is ignored.
#[derive(Debug)]
pub enum ParseError {
    IO(String),
    /// The text that a pass could not parse, and the name of that pass.
    SyntaxError(String, String),
    EvaluationError(CommandError),
    Comment,
    InputEmpty,
}

pub const INITIAL_PASS: &'static str = "initial";

pub const REPLACEMENTS_PASS: &'static str = "replacements";

pub const COMMAND_PASS: &'static str = "command";

/// `e` reports that `pass` could not parse `text`.
pub open spec fn syntax_error(e: ParseError, text: Seq<char>, pass: Seq<char>) -> bool {
    e is SyntaxError && e->SyntaxError_0@ == text && e->SyntaxError_1@ == pass
}

/// The error that reports that `pass` could not parse `text`.
pub fn syntax_error_of(text: &String, pass: &'static str) -> (r: ParseError)
    ensures
        syntax_error(r, text@, pass@),
{
    ParseError::SyntaxError(text.clone(), pass.to_owned())
}

} // verus!
