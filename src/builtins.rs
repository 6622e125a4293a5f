//! The in-process commands: `alias`, the argument check of `cd`, and the
//! table of names that are not spawned.

use vstd::prelude::*;
use crate::state::{inserted, State, insert_entry};
use crate::types::{Arg, ArgV, Assignment};

verus! {

/// Why a built-in failed. The text of an operating-system error is carried
/// as its message.
#[derive(Debug)]
pub enum BuiltInError {
    NoArgument,
    FailedToExtractArg,
    TooManyArguments(usize, usize),
    FailedToChangeDir(String),
    FailedToSpawnChild(String, String),
    InvalidArgument,
    IOError(String),
    NoSuchProgram(String),
}

/// `alias name=value`: exactly one argument, which must be an assignment;
/// binds `name` to `value` in the alias table.
pub fn handle_alias(args: Vec<Arg>, state: &mut State) -> (r: Result<(), BuiltInError>)
    requires
        old(state).wf(),
    ensures
        final(state).wf(),
        args@.len() == 0 <==> (r is Err && r->Err_0 is NoArgument),
        args@.len() > 1 <==> (r is Err && r->Err_0 is TooManyArguments),
        args@.len() > 1 ==> r->Err_0->TooManyArguments_0 == args@.len()
            && r->Err_0->TooManyArguments_1 == 1,
        args@.len() == 1 && r is Err ==> r->Err_0 is InvalidArgument,
        r is Ok <==> (args@.len() == 1 && args@[0] is Assignment),
        r is Err ==> *final(state) == *old(state),
        r is Ok ==> ({
            let (name, value) = match args@[0]@ {
                ArgV::AssignWord(n, v) => (n, v),
                ArgV::AssignStr(n, v) => (n, v),
                _ => (Seq::empty(), Seq::empty()),
            };
            &&& final(state).alias_entries() == inserted(old(state).alias_entries(), name, value)
            &&& final(state).variables == old(state).variables
            &&& final(state).home == old(state).home
            &&& final(state).username == old(state).username
        }),
{
    let n = args.len();
    if n == 0 {
        return Err(BuiltInError::NoArgument);
    }
    if n > 1 {
        return Err(BuiltInError::TooManyArguments(n, 1));
    }
    let mut args = args;
    let arg = args.pop().unwrap();
    match arg {
        Arg::Assignment(w, a) => {
            let value = match a {
                Assignment::Word(w) => w,
                Assignment::String(s) => s,
            };
            insert_entry(&mut state.aliases, w, value);
            Ok(())
        },
        _ => Err(BuiltInError::InvalidArgument),
    }
}

/// The directory that `cd` changes to: exactly one argument, a plain word.
pub fn cd_target(args: &Vec<Arg>) -> (r: Result<String, BuiltInError>)
    ensures
        args@.len() == 0 <==> (r is Err && r->Err_0 is NoArgument),
        args@.len() > 1 <==> (r is Err && r->Err_0 is TooManyArguments),
        args@.len() > 1 ==> r->Err_0->TooManyArguments_0 == args@.len()
            && r->Err_0->TooManyArguments_1 == 1,
        args@.len() == 1 ==> match args@[0]@ {
            ArgV::Word(w) => r is Ok && r->Ok_0@ == w,
            _ => r is Err && r->Err_0 is InvalidArgument,
        },
{
    let n = args.len();
    if n == 0 {
        return Err(BuiltInError::NoArgument);
    }
    if n > 1 {
        return Err(BuiltInError::TooManyArguments(n, 1));
    }
    match &args[0] {
        Arg::Word(a) => Ok(a.clone()),
        _ => Err(BuiltInError::InvalidArgument),
    }
}

/// The built-in commands that run in-process.
#[derive(Debug)]
pub enum BuiltIn {
    Exit,
    Cd,
    Alias,
    Colors,
}

pub open spec fn builtin_spec(name: Seq<char>) -> Option<BuiltIn> {
    if name == "exit"@ {
        Some(BuiltIn::Exit)
    } else if name == "cd"@ {
        Some(BuiltIn::Cd)
    } else if name == "alias"@ {
        Some(BuiltIn::Alias)
    } else if name == "vrsh-colors"@ {
        Some(BuiltIn::Colors)
    } else {
        None
    }
}

/// Which built-in, if any, a program name names.
pub fn builtin_of(name: &String) -> (r: Option<BuiltIn>)
    ensures
        r == builtin_spec(name@),
{
    let exit = String::from_str("exit");
    let cd = String::from_str("cd");
    let alias = String::from_str("alias");
    let colors = String::from_str("vrsh-colors");
    if *name == exit {
        Some(BuiltIn::Exit)
    } else if *name == cd {
        Some(BuiltIn::Cd)
    } else if *name == alias {
        Some(BuiltIn::Alias)
    } else if *name == colors {
        Some(BuiltIn::Colors)
    } else {
        None
    }
}

} // verus!
