//! The execution engine's decisions: which stages are built-ins, how each
//! spawned stage is wired, and in which order the stages are started.
//!
//! A stage's input pipe exists only once that stage runs, so stages start
//! last first: each spawned stage writes into the input of the stage spawned
//! just before it, and the first spawned (the last stage) writes to the
//! target the caller asked for. A built-in runs in-process and takes no
//! part in the piping: the stage before it writes into the stage after it.

use vstd::prelude::*;
use crate::builtins::{builtin_of, builtin_spec, BuiltIn};
use crate::text::{push_char, push_string};
use crate::types::{Arg, ArgV, Assignment, Cmd, CmdPartV, CmdType, CmdTypeV, Redirect, RedirectV};

verus! {

/// How a command line ended: the loop reads on, or the shell exits.
#[derive(Debug)]
pub enum CommandStatus {
    Continue,
    Exit,
}

/// Where a spawned stage reads from.
#[derive(Debug)]
pub enum Input {
    /// The shell's own input.
    Inherit,
    /// A new pipe, written by the stage spawned after it.
    Pipe,
    /// The file of an input redirect.
    File(String),
}

/// Where a spawned stage writes to.
#[derive(Debug)]
pub enum Output {
    /// The target the caller asked for.
    Target,
    /// The input pipe of the stage spawned just before.
    IntoNext,
    /// The shell's own output: the stage spawned before reads no pipe.
    Inherit,
    /// The file of an output redirect, created or truncated.
    File(String),
}

/// One thing to do, in the order they are to be done.
#[derive(Debug)]
pub enum Action {
    Spawn { program: String, args: Vec<String>, input: Input, output: Output },
    SetVariable(String, String),
    Alias(Vec<Arg>),
    ChangeDir(Vec<Arg>),
    ShowColors,
    Exit,
}

pub enum InputV {
    Inherit,
    Pipe,
    File(Seq<char>),
}

pub enum OutputV {
    Target,
    IntoNext,
    Inherit,
    File(Seq<char>),
}

pub enum ActionV {
    Spawn { program: Seq<char>, args: Seq<Seq<char>>, input: InputV, output: OutputV },
    SetVariable(Seq<char>, Seq<char>),
    Alias(Seq<ArgV>),
    ChangeDir(Seq<ArgV>),
    ShowColors,
    Exit,
}

impl View for Input {
    type V = InputV;

    open spec fn view(&self) -> InputV {
        match self {
            Input::Inherit => InputV::Inherit,
            Input::Pipe => InputV::Pipe,
            Input::File(p) => InputV::File(p@),
        }
    }
}

impl View for Output {
    type V = OutputV;

    open spec fn view(&self) -> OutputV {
        match self {
            Output::Target => OutputV::Target,
            Output::IntoNext => OutputV::IntoNext,
            Output::Inherit => OutputV::Inherit,
            Output::File(p) => OutputV::File(p@),
        }
    }
}

impl View for Action {
    type V = ActionV;

    open spec fn view(&self) -> ActionV {
        match self {
            Action::Spawn { program, args, input, output } => ActionV::Spawn {
                program: program@,
                args: args@.map_values(|a: String| a@),
                input: input@,
                output: output@,
            },
            Action::SetVariable(n, v) => ActionV::SetVariable(n@, v@),
            Action::Alias(a) => ActionV::Alias(a@.map_values(|x: Arg| x@)),
            Action::ChangeDir(a) => ActionV::ChangeDir(a@.map_values(|x: Arg| x@)),
            Action::ShowColors => ActionV::ShowColors,
            Action::Exit => ActionV::Exit,
        }
    }
}

/// An argument as the program receives it: `name=value` for an assignment.
pub open spec fn arg_text(a: ArgV) -> Seq<char> {
    match a {
        ArgV::Word(w) => w,
        ArgV::Str(s) => s,
        ArgV::AssignWord(n, v) => n + seq!['='] + v,
        ArgV::AssignStr(n, v) => n + seq!['='] + v,
    }
}

/// The path of the last input redirect.
pub open spec fn last_in(rs: Seq<RedirectV>) -> Option<Seq<char>>
    decreases rs.len(),
{
    if rs.len() == 0 {
        None
    } else {
        match rs.last() {
            RedirectV::In(p) => Some(p),
            _ => last_in(rs.drop_last()),
        }
    }
}

/// The path of the last output redirect.
pub open spec fn last_out(rs: Seq<RedirectV>) -> Option<Seq<char>>
    decreases rs.len(),
{
    if rs.len() == 0 {
        None
    } else {
        match rs.last() {
            RedirectV::Out(p) => Some(p),
            _ => last_out(rs.drop_last()),
        }
    }
}

/// No stage stands before entry `i`: a stage there reads the shell's input.
pub open spec fn first_stage(parts: Seq<CmdTypeV>, i: int) -> bool {
    forall|j: int| 0 <= j < i ==> parts[j] is Variable
}

pub open spec fn input_of(parts: Seq<CmdTypeV>, i: int, c: CmdPartV) -> InputV {
    match last_in(c.redirects) {
        Some(p) => InputV::File(p),
        None => if first_stage(parts, i) {
            InputV::Inherit
        } else {
            InputV::Pipe
        },
    }
}

pub open spec fn output_of(c: CmdPartV, spawned: bool, next_piped: bool) -> OutputV {
    match last_out(c.redirects) {
        Some(p) => OutputV::File(p),
        None => if !spawned {
            OutputV::Target
        } else if next_piped {
            OutputV::IntoNext
        } else {
            OutputV::Inherit
        },
    }
}

/// The actions for the first `n` entries, taken last first, given whether
/// a stage was spawned already and whether the last one spawned reads a
/// pipe. `exit` ends the plan.
pub open spec fn plan_from(parts: Seq<CmdTypeV>, n: int, spawned: bool, next_piped: bool) -> Seq<
    ActionV,
>
    decreases n,
{
    if n <= 0 || n > parts.len() {
        Seq::empty()
    } else {
        match parts[n - 1] {
            CmdTypeV::Variable(k, v) => seq![ActionV::SetVariable(k, v)] + plan_from(
                parts,
                n - 1,
                spawned,
                next_piped,
            ),
            CmdTypeV::Stage(c) => match builtin_spec(c.cmd) {
                Some(BuiltIn::Exit) => seq![ActionV::Exit],
                Some(BuiltIn::Cd) => seq![ActionV::ChangeDir(c.args)] + plan_from(
                    parts,
                    n - 1,
                    spawned,
                    next_piped,
                ),
                Some(BuiltIn::Alias) => seq![ActionV::Alias(c.args)] + plan_from(
                    parts,
                    n - 1,
                    spawned,
                    next_piped,
                ),
                Some(BuiltIn::Colors) => seq![ActionV::ShowColors] + plan_from(
                    parts,
                    n - 1,
                    spawned,
                    next_piped,
                ),
                None => {
                    let input = input_of(parts, n - 1, c);
                    seq![
                        ActionV::Spawn {
                            program: c.cmd,
                            args: c.args.map_values(|a: ArgV| arg_text(a)),
                            input,
                            output: output_of(c, spawned, next_piped),
                        },
                    ] + plan_from(parts, n - 1, true, input is Pipe)
                },
            },
        }
    }
}

/// The plan of a whole command.
pub open spec fn plan_spec(parts: Seq<CmdTypeV>) -> Seq<ActionV> {
    plan_from(parts, parts.len() as int, false, false)
}

/// An argument as the program receives it.
pub fn arg_to_string(a: &Arg) -> (r: String)
    ensures
        r@ == arg_text(a@),
{
    match a {
        Arg::Word(w) => w.clone(),
        Arg::String(s) => s.clone(),
        Arg::Assignment(n, v) => {
            let mut r = n.clone();
            push_char(&mut r, '=');
            match v {
                Assignment::Word(w) => push_string(&mut r, w),
                Assignment::String(s) => push_string(&mut r, s),
            }
            assert(r@ =~= arg_text(a@));
            r
        },
    }
}

fn args_text(args: &Vec<Arg>) -> (r: Vec<String>)
    ensures
        r@.map_values(|s: String| s@) == args@.map_values(|a: Arg| a@).map_values(
            |a: ArgV| arg_text(a),
        ),
{
    let mut r: Vec<String> = Vec::new();
    let mut i: usize = 0;
    while i < args.len()
        invariant
            i <= args@.len(),
            r@.len() == i,
            forall|k: int| 0 <= k < i ==> #[trigger] r@[k]@ == arg_text(args@[k]@),
        decreases args@.len() - i,
    {
        r.push(arg_to_string(&args[i]));
        i += 1;
    }
    assert(r@.map_values(|s: String| s@) =~= args@.map_values(|a: Arg| a@).map_values(
        |a: ArgV| arg_text(a),
    ));
    r
}

fn last_redirect(rs: &Vec<Redirect>, input: bool) -> (r: Option<String>)
    ensures
        opt_path(r) == if input {
            last_in(rs@.map_values(|x: Redirect| x@))
        } else {
            last_out(rs@.map_values(|x: Redirect| x@))
        },
{
    let ghost all = rs@.map_values(|x: Redirect| x@);
    let mut i = rs.len();
    assert(all.take(i as int) =~= all);
    while i > 0
        invariant
            i <= rs@.len(),
            all == rs@.map_values(|x: Redirect| x@),
            if input {
                last_in(all) == last_in(all.take(i as int))
            } else {
                last_out(all) == last_out(all.take(i as int))
            },
        decreases i,
    {
        assert(all.take(i as int).last() == rs@[i - 1]@);
        assert(all.take(i as int).drop_last() =~= all.take(i - 1));
        match &rs[i - 1] {
            Redirect::In(p) => {
                if input {
                    return Some(p.clone());
                }
            },
            Redirect::Out(p) => {
                if !input {
                    return Some(p.clone());
                }
            },
        }
        i -= 1;
    }
    None
}

pub open spec fn opt_path(p: Option<String>) -> Option<Seq<char>> {
    match p {
        Some(s) => Some(s@),
        None => None,
    }
}

fn is_first_stage(parts: &Vec<CmdType>) -> (r: bool)
    ensures
        r == first_stage(parts@.map_values(|p: CmdType| p@), parts@.len() as int),
{
    let i = parts.len();
    let ghost v = parts@.map_values(|p: CmdType| p@);
    let mut j: usize = 0;
    while j < i
        invariant
            i <= parts@.len(),
            v == parts@.map_values(|p: CmdType| p@),
            j <= i,
            forall|k: int| 0 <= k < j ==> v[k] is Variable,
        decreases i - j,
    {
        match &parts[j] {
            CmdType::Cmd(_) => {
                assert(!(v[j as int] is Variable));
                return false;
            },
            CmdType::Variable(_, _) => {},
        }
        j += 1;
    }
    true
}

/// The actions that run a command, in order: its entries last first, each
/// bare assignment and built-in in turn, each other stage spawned with its
/// wiring; `exit` ends the list.
pub fn plan_pipeline(cmd: Cmd) -> (r: Vec<Action>)
    ensures
        r@.map_values(|a: Action| a@) == plan_spec(cmd@),
{
    let ghost all = cmd@;
    let mut parts = cmd.parts;
    let mut out: Vec<Action> = Vec::new();
    let mut spawned = false;
    let mut next_piped = false;
    assert(out@.map_values(|a: Action| a@) + plan_spec(all) =~= plan_spec(all));
    assert(parts@.map_values(|p: CmdType| p@) =~= all.take(all.len() as int));
    while parts.len() > 0
        invariant
            all == cmd@,
            parts@.len() <= all.len(),
            parts@.map_values(|p: CmdType| p@) == all.take(parts@.len() as int),
            out@.map_values(|a: Action| a@) + plan_from(all, parts@.len() as int, spawned, next_piped)
                == plan_spec(all),
        decreases parts@.len(),
    {
        let ghost i = parts@.len() as int;
        let ghost before = out@.map_values(|a: Action| a@);
        assert(all.take(i)[i - 1] == all[i - 1]);
        let ghost old_parts = parts@;
        assert(old_parts.map_values(|p: CmdType| p@)[i - 1] == old_parts[i - 1]@);
        let part = parts.pop().unwrap();
        assert(part@ == all[i - 1]);
        assert(parts@.map_values(|p: CmdType| p@) =~= all.take(i - 1));
        assert(forall|j: int| 0 <= j < i - 1 ==> all.take(i - 1)[j] == all[j]);
        match part {
            CmdType::Variable(k, v) => {
                out.push(Action::SetVariable(k, v));
            },
            CmdType::Cmd(c) => {
                match builtin_of(&c.cmd) {
                    Some(BuiltIn::Exit) => {
                        out.push(Action::Exit);
                        assert(out@.map_values(|a: Action| a@) =~= before + seq![ActionV::Exit]);
                        assert(builtin_spec(c.cmd@) == Some(BuiltIn::Exit));
                        assert(plan_from(all, i, spawned, next_piped) == seq![ActionV::Exit]);
                        return out;
                    },
                    Some(BuiltIn::Cd) => {
                        out.push(Action::ChangeDir(c.args));
                    },
                    Some(BuiltIn::Alias) => {
                        out.push(Action::Alias(c.args));
                    },
                    Some(BuiltIn::Colors) => {
                        out.push(Action::ShowColors);
                    },
                    None => {
                        let input = match last_redirect(&c.redirects, true) {
                            Some(p) => Input::File(p),
                            None => if is_first_stage(&parts) {
                                Input::Inherit
                            } else {
                                Input::Pipe
                            },
                        };
                        let output = match last_redirect(&c.redirects, false) {
                            Some(p) => Output::File(p),
                            None => if !spawned {
                                Output::Target
                            } else if next_piped {
                                Output::IntoNext
                            } else {
                                Output::Inherit
                            },
                        };
                        let piped = match input {
                            Input::Pipe => true,
                            _ => false,
                        };
                        let args = args_text(&c.args);
                        out.push(Action::Spawn { program: c.cmd, args, input, output });
                        spawned = true;
                        next_piped = piped;
                    },
                }
            },
        }
        proof {
            let now = out@.map_values(|a: Action| a@);
            assert(now =~= before.push(now.last()));
            assert(before.push(now.last()) + plan_from(all, i - 1, spawned, next_piped) =~= before + (
            seq![now.last()] + plan_from(all, i - 1, spawned, next_piped)));
        }
    }
    assert(out@.map_values(|a: Action| a@) + Seq::empty() =~= out@.map_values(|a: Action| a@));
    out
}

/// A stage that runs a program, not a built-in, and has no redirect.
pub open spec fn is_plain_stage(p: CmdTypeV) -> bool {
    &&& p is Stage
    &&& builtin_spec(p->Stage_0.cmd) is None
    &&& p->Stage_0.redirects.len() == 0
}

/// The action that spawns stage `c` with the given wiring.
pub open spec fn spawn_of(c: CmdPartV, input: InputV, output: OutputV) -> ActionV {
    ActionV::Spawn {
        program: c.cmd,
        args: c.args.map_values(|a: ArgV| arg_text(a)),
        input,
        output,
    }
}

/// A single program without redirects is spawned once, with the arguments
/// as written, reading the shell's input and writing to the target the
/// caller asked for.
pub proof fn lemma_single_stage(c: CmdPartV)
    requires
        is_plain_stage(CmdTypeV::Stage(c)),
    ensures
        plan_spec(seq![CmdTypeV::Stage(c)]) == seq![
            spawn_of(c, InputV::Inherit, OutputV::Target),
        ],
{
    let parts = seq![CmdTypeV::Stage(c)];
    assert(first_stage(parts, 0));
    assert(last_in(c.redirects) is None);
    assert(last_out(c.redirects) is None);
    assert(plan_from(parts, 0, true, false) == Seq::<ActionV>::empty());
    assert(seq![spawn_of(c, InputV::Inherit, OutputV::Target)] + Seq::<ActionV>::empty() =~= seq![
        spawn_of(c, InputV::Inherit, OutputV::Target),
    ]);
}

proof fn lemma_wiring_from(parts: Seq<CmdTypeV>, n: int, sp: bool, np: bool)
    requires
        parts.len() > 0,
        forall|i: int| 0 <= i < parts.len() ==> is_plain_stage(#[trigger] parts[i]),
        0 <= n <= parts.len(),
        0 < n < parts.len() ==> sp && np,
        n == parts.len() ==> !sp,
    ensures
        plan_from(parts, n, sp, np).len() == n,
        forall|j: int|
            0 <= j < n ==> #[trigger] plan_from(parts, n, sp, np)[j] == spawn_of(
                parts[n - 1 - j]->Stage_0,
                if n - 1 - j == 0 {
                    InputV::Inherit
                } else {
                    InputV::Pipe
                },
                if j == 0 && !sp {
                    OutputV::Target
                } else {
                    OutputV::IntoNext
                },
            ),
    decreases n,
{
    if n > 0 {
        let c = parts[n - 1]->Stage_0;
        assert(is_plain_stage(parts[n - 1]));
        assert(last_in(c.redirects) is None);
        assert(last_out(c.redirects) is None);
        if n - 1 > 0 {
            assert(is_plain_stage(parts[0]));
            assert(!first_stage(parts, n - 1));
        } else {
            assert(first_stage(parts, n - 1));
        }
        let input = input_of(parts, n - 1, c);
        lemma_wiring_from(parts, n - 1, true, input is Pipe);
        let head = spawn_of(c, input, output_of(c, sp, np));
        let rest = plan_from(parts, n - 1, true, input is Pipe);
        assert(plan_from(parts, n, sp, np) == seq![head] + rest);
        assert forall|j: int| 0 <= j < n implies #[trigger] plan_from(parts, n, sp, np)[j]
            == spawn_of(
            parts[n - 1 - j]->Stage_0,
            if n - 1 - j == 0 {
                InputV::Inherit
            } else {
                InputV::Pipe
            },
            if j == 0 && !sp {
                OutputV::Target
            } else {
                OutputV::IntoNext
            },
        ) by {
            if j > 0 {
                assert(plan_from(parts, n, sp, np)[j] == rest[j - 1]);
            }
        }
    }
}

/// In a pipeline of programs without redirects, stage `i` is spawned as the
/// `(N-1-i)`-th action: stage 0 reads the shell's input and every other
/// stage a pipe, the last stage writes to the requested target and every
/// other stage into the input pipe of the stage after it.
pub proof fn lemma_pipeline_wiring(parts: Seq<CmdTypeV>)
    requires
        parts.len() > 0,
        forall|i: int| 0 <= i < parts.len() ==> is_plain_stage(#[trigger] parts[i]),
    ensures
        plan_spec(parts).len() == parts.len(),
        forall|i: int|
            0 <= i < parts.len() ==> #[trigger] plan_spec(parts)[parts.len() - 1 - i] == spawn_of(
                parts[i]->Stage_0,
                if i == 0 {
                    InputV::Inherit
                } else {
                    InputV::Pipe
                },
                if i == parts.len() - 1 {
                    OutputV::Target
                } else {
                    OutputV::IntoNext
                },
            ),
{
    let n = parts.len() as int;
    lemma_wiring_from(parts, n, false, false);
    assert forall|i: int| 0 <= i < n implies #[trigger] plan_spec(parts)[n - 1 - i] == spawn_of(
        parts[i]->Stage_0,
        if i == 0 {
            InputV::Inherit
        } else {
            InputV::Pipe
        },
        if i == n - 1 {
            OutputV::Target
        } else {
            OutputV::IntoNext
        },
    ) by {
        let j = n - 1 - i;
        assert(plan_from(parts, n, false, false)[j] == spawn_of(
            parts[n - 1 - j]->Stage_0,
            if n - 1 - j == 0 {
                InputV::Inherit
            } else {
                InputV::Pipe
            },
            if j == 0 {
                OutputV::Target
            } else {
                OutputV::IntoNext
            },
        ));
    }
}

} // verus!
