//! The data produced by the three parsing passes, with their views.

use vstd::prelude::*;

verus! {

/// A fully resolved command line: pipeline stages and bare assignments, in
/// the order they were written.
#[derive(Debug)]
pub struct Cmd {
    pub parts: Vec<CmdType>,
}

#[derive(Debug)]
pub enum CmdType {
    Cmd(CmdPart),
    Variable(String, String),
}

/// One pipeline stage: the program, its arguments and its redirects.
#[derive(Debug)]
pub struct CmdPart {
    pub cmd: String,
    pub args: Vec<Arg>,
    pub redirects: Vec<Redirect>,
}

/// What follows the program name within a stage.
#[derive(Debug)]
pub enum CmdPartSection {
    Redirect(Redirect),
    Arg(Arg),
}

#[derive(Debug)]
pub enum Arg {
    Word(String),
    String(String),
    Assignment(String, Assignment),
}

/// The value side of a `name=value` argument.
#[derive(Debug)]
pub enum Assignment {
    Word(String),
    String(String),
}

#[derive(Debug)]
pub enum Redirect {
    In(String),
    Out(String),
}

/// The result of the first pass: literal text, single-quoted text, and the
/// bounds of command substitutions, in the order they were written. A
/// substitution's inner command is everything between its start and its
/// matching end, so substitutions nest as a tree.
#[derive(Debug)]
pub struct InitialCmd {
    pub parts: Vec<InitialCmdPart>,
}

#[derive(Debug)]
pub enum InitialCmdPart {
    String(String),
    SingleQuotedString(String),
    CalculationStart,
    CalculationEnd,
}

/// The result of the second pass.
#[derive(Debug)]
pub struct ReplacementsCmd {
    pub parts: Vec<ReplacementPart>,
}

#[derive(Debug)]
pub enum ReplacementPart {
    String(String),
    Word(String),
    Variable(String),
}

pub enum ArgV {
    Word(Seq<char>),
    Str(Seq<char>),
    AssignWord(Seq<char>, Seq<char>),
    AssignStr(Seq<char>, Seq<char>),
}

pub enum RedirectV {
    In(Seq<char>),
    Out(Seq<char>),
}

pub struct CmdPartV {
    pub cmd: Seq<char>,
    pub args: Seq<ArgV>,
    pub redirects: Seq<RedirectV>,
}

pub enum CmdTypeV {
    Stage(CmdPartV),
    Variable(Seq<char>, Seq<char>),
}

pub enum InitialPartV {
    Text(Seq<char>),
    Quoted(Seq<char>),
    Open,
    Close,
}

pub enum ReplacementPartV {
    Literal(Seq<char>),
    Word(Seq<char>),
    Variable(Seq<char>),
}

impl View for Arg {
    type V = ArgV;

    open spec fn view(&self) -> ArgV {
        match self {
            Arg::Word(w) => ArgV::Word(w@),
            Arg::String(s) => ArgV::Str(s@),
            Arg::Assignment(n, Assignment::Word(w)) => ArgV::AssignWord(n@, w@),
            Arg::Assignment(n, Assignment::String(s)) => ArgV::AssignStr(n@, s@),
        }
    }
}

impl View for Redirect {
    type V = RedirectV;

    open spec fn view(&self) -> RedirectV {
        match self {
            Redirect::In(p) => RedirectV::In(p@),
            Redirect::Out(p) => RedirectV::Out(p@),
        }
    }
}

impl View for CmdPart {
    type V = CmdPartV;

    open spec fn view(&self) -> CmdPartV {
        CmdPartV {
            cmd: self.cmd@,
            args: self.args@.map_values(|a: Arg| a@),
            redirects: self.redirects@.map_values(|r: Redirect| r@),
        }
    }
}

impl View for CmdType {
    type V = CmdTypeV;

    open spec fn view(&self) -> CmdTypeV {
        match self {
            CmdType::Cmd(c) => CmdTypeV::Stage(c@),
            CmdType::Variable(n, v) => CmdTypeV::Variable(n@, v@),
        }
    }
}

impl View for Cmd {
    type V = Seq<CmdTypeV>;

    open spec fn view(&self) -> Seq<CmdTypeV> {
        self.parts@.map_values(|p: CmdType| p@)
    }
}

impl View for InitialCmdPart {
    type V = InitialPartV;

    open spec fn view(&self) -> InitialPartV {
        match self {
            InitialCmdPart::String(s) => InitialPartV::Text(s@),
            InitialCmdPart::SingleQuotedString(s) => InitialPartV::Quoted(s@),
            InitialCmdPart::CalculationStart => InitialPartV::Open,
            InitialCmdPart::CalculationEnd => InitialPartV::Close,
        }
    }
}

impl View for InitialCmd {
    type V = Seq<InitialPartV>;

    open spec fn view(&self) -> Seq<InitialPartV> {
        self.parts@.map_values(|p: InitialCmdPart| p@)
    }
}

impl View for ReplacementPart {
    type V = ReplacementPartV;

    open spec fn view(&self) -> ReplacementPartV {
        match self {
            ReplacementPart::String(s) => ReplacementPartV::Literal(s@),
            ReplacementPart::Word(w) => ReplacementPartV::Word(w@),
            ReplacementPart::Variable(v) => ReplacementPartV::Variable(v@),
        }
    }
}

impl View for ReplacementsCmd {
    type V = Seq<ReplacementPartV>;

    open spec fn view(&self) -> Seq<ReplacementPartV> {
        self.parts@.map_values(|p: ReplacementPart| p@)
    }
}

} // verus!
