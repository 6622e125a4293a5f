//! The third pass: fully resolved text into a pipeline of stages and bare
//! assignments.
//!
//! Tokens are separated by whitespace. `|`, `<` and `>` stand alone. A quoted
//! region is one string token without its quotes. A word that starts with a
//! name followed by `=` is an assignment; when nothing follows the `=` but a
//! quoted region, that region is its value.

use vstd::prelude::*;
use crate::errors::{syntax_error, syntax_error_of, ParseError, COMMAND_PASS};
use crate::replacements::{is_quote, name_end, name_len, prepend, sub_string, until_end, until_len};
use crate::text::{chars_of, is_space, space};
use crate::types::{Arg, ArgV, Assignment, Cmd, CmdPart, CmdPartV, CmdType, CmdTypeV, Redirect, RedirectV};

verus! {

pub open spec fn is_operator(c: char) -> bool {
    c == '|' || c == '<' || c == '>'
}

pub open spec fn continues_cmd_word(c: char) -> bool {
    !is_space(c) && !is_quote(c) && !is_operator(c)
}

/// How many characters that continue a word start at `i`.
pub open spec fn cmd_word_len(s: Seq<char>, i: int) -> nat
    decreases s.len() - i,
{
    if 0 <= i < s.len() && continues_cmd_word(s[i]) {
        1 + cmd_word_len(s, i + 1)
    } else {
        0
    }
}

pub enum TokenV {
    Word(Seq<char>),
    Str(Seq<char>),
    AssignWord(Seq<char>, Seq<char>),
    AssignStr(Seq<char>, Seq<char>),
    Pipe,
    In,
    Out,
}

pub enum Token {
    Word(String),
    Str(String),
    AssignWord(String, String),
    AssignStr(String, String),
    Pipe,
    In,
    Out,
}

impl View for Token {
    type V = TokenV;

    open spec fn view(&self) -> TokenV {
        match self {
            Token::Word(w) => TokenV::Word(w@),
            Token::Str(s) => TokenV::Str(s@),
            Token::AssignWord(n, v) => TokenV::AssignWord(n@, v@),
            Token::AssignStr(n, v) => TokenV::AssignStr(n@, v@),
            Token::Pipe => TokenV::Pipe,
            Token::In => TokenV::In,
            Token::Out => TokenV::Out,
        }
    }
}

/// The tokens of `s` from position `i` on, or nothing when a quote is left
/// open.
pub open spec fn tokens(s: Seq<char>, i: int) -> Option<Seq<TokenV>>
    decreases s.len() - i via tokens_decreases
{
    if i < 0 || i >= s.len() {
        Some(Seq::empty())
    } else if is_space(s[i]) {
        tokens(s, i + 1)
    } else if s[i] == '|' {
        prepend(TokenV::Pipe, tokens(s, i + 1))
    } else if s[i] == '<' {
        prepend(TokenV::In, tokens(s, i + 1))
    } else if s[i] == '>' {
        prepend(TokenV::Out, tokens(s, i + 1))
    } else if is_quote(s[i]) {
        let k = i + 1 + until_len(s, i + 1, s[i]);
        if k >= s.len() {
            None
        } else {
            prepend(TokenV::Str(s.subrange(i + 1, k)), tokens(s, k + 1))
        }
    } else {
        let j = i + 1 + cmd_word_len(s, i + 1);
        let e = i + name_len(s, i);
        if i < e < j && s[e] == '=' {
            if e + 1 == j && j < s.len() && is_quote(s[j]) {
                let k = j + 1 + until_len(s, j + 1, s[j]);
                if k >= s.len() {
                    None
                } else {
                    prepend(
                        TokenV::AssignStr(s.subrange(i, e), s.subrange(j + 1, k)),
                        tokens(s, k + 1),
                    )
                }
            } else {
                prepend(TokenV::AssignWord(s.subrange(i, e), s.subrange(e + 1, j)), tokens(s, j))
            }
        } else {
            prepend(TokenV::Word(s.subrange(i, j)), tokens(s, j))
        }
    }
}

proof fn lemma_cmd_word_len(s: Seq<char>, i: int)
    requires
        0 <= i <= s.len(),
    ensures
        i + cmd_word_len(s, i) <= s.len(),
    decreases s.len() - i,
{
    if i < s.len() {
        lemma_cmd_word_len(s, i + 1);
    }
}

#[via_fn]
proof fn tokens_decreases(s: Seq<char>, i: int) {
    if 0 <= i < s.len() {
        lemma_cmd_word_len(s, i + 1);
    }
}

/// A redirect operator waiting for its path.
#[derive(PartialEq, Eq, Structural, Clone, Copy)]
pub enum Pending {
    Nothing,
    In,
    Out,
}

/// The entries that tokens `i..` complete, given the entries so far, the
/// program, arguments and redirects of the stage being read, a redirect
/// operator that waits for its path, and whether a `|` came before the
/// stage. Nothing where the tokens do not form a pipeline: a stage without
/// a program before `|`, `<` or `>`, a redirect without a path, or a `|`
/// at the end.
pub open spec fn entries_from(
    toks: Seq<TokenV>,
    i: int,
    parts: Seq<CmdTypeV>,
    prog: Option<Seq<char>>,
    args: Seq<ArgV>,
    redirects: Seq<RedirectV>,
    pending: Pending,
    after_pipe: bool,
) -> Option<Seq<CmdTypeV>>
    decreases toks.len() - i,
{
    if i < 0 || i >= toks.len() {
        if pending != Pending::Nothing {
            None
        } else {
            match prog {
                Some(p) => Some(
                    parts.push(CmdTypeV::Stage(CmdPartV { cmd: p, args, redirects })),
                ),
                None => if after_pipe {
                    None
                } else {
                    Some(parts)
                },
            }
        }
    } else if pending != Pending::Nothing {
        match toks[i] {
            TokenV::Word(w) => entries_from(
                toks,
                i + 1,
                parts,
                prog,
                args,
                redirects.push(redirect_of(pending, w)),
                Pending::Nothing,
                after_pipe,
            ),
            TokenV::Str(w) => entries_from(
                toks,
                i + 1,
                parts,
                prog,
                args,
                redirects.push(redirect_of(pending, w)),
                Pending::Nothing,
                after_pipe,
            ),
            _ => None,
        }
    } else {
        match toks[i] {
            TokenV::Word(w) => if prog is None {
                entries_from(toks, i + 1, parts, Some(w), args, redirects, pending, after_pipe)
            } else {
                entries_from(
                    toks,
                    i + 1,
                    parts,
                    prog,
                    args.push(ArgV::Word(w)),
                    redirects,
                    pending,
                    after_pipe,
                )
            },
            TokenV::Str(w) => if prog is None {
                entries_from(toks, i + 1, parts, Some(w), args, redirects, pending, after_pipe)
            } else {
                entries_from(
                    toks,
                    i + 1,
                    parts,
                    prog,
                    args.push(ArgV::Str(w)),
                    redirects,
                    pending,
                    after_pipe,
                )
            },
            TokenV::AssignWord(n, v) => if prog is None {
                entries_from(
                    toks,
                    i + 1,
                    parts.push(CmdTypeV::Variable(n, v)),
                    prog,
                    args,
                    redirects,
                    pending,
                    after_pipe,
                )
            } else {
                entries_from(
                    toks,
                    i + 1,
                    parts,
                    prog,
                    args.push(ArgV::AssignWord(n, v)),
                    redirects,
                    pending,
                    after_pipe,
                )
            },
            TokenV::AssignStr(n, v) => if prog is None {
                entries_from(
                    toks,
                    i + 1,
                    parts.push(CmdTypeV::Variable(n, v)),
                    prog,
                    args,
                    redirects,
                    pending,
                    after_pipe,
                )
            } else {
                entries_from(
                    toks,
                    i + 1,
                    parts,
                    prog,
                    args.push(ArgV::AssignStr(n, v)),
                    redirects,
                    pending,
                    after_pipe,
                )
            },
            TokenV::Pipe => match prog {
                None => None,
                Some(p) => entries_from(
                    toks,
                    i + 1,
                    parts.push(CmdTypeV::Stage(CmdPartV { cmd: p, args, redirects })),
                    None,
                    Seq::empty(),
                    Seq::empty(),
                    Pending::Nothing,
                    true,
                ),
            },
            TokenV::In => if prog is None {
                None
            } else {
                entries_from(toks, i + 1, parts, prog, args, redirects, Pending::In, after_pipe)
            },
            TokenV::Out => if prog is None {
                None
            } else {
                entries_from(toks, i + 1, parts, prog, args, redirects, Pending::Out, after_pipe)
            },
        }
    }
}

pub open spec fn redirect_of(p: Pending, path: Seq<char>) -> RedirectV {
    if p == Pending::In {
        RedirectV::In(path)
    } else {
        RedirectV::Out(path)
    }
}

/// What the third pass makes of `s`: its entries, or nothing on a syntax
/// error.
pub open spec fn command_spec(s: Seq<char>) -> Option<Seq<CmdTypeV>> {
    match tokens(s, 0) {
        None => None,
        Some(t) => entries_from(
            t,
            0,
            Seq::empty(),
            None,
            Seq::empty(),
            Seq::empty(),
            Pending::Nothing,
            false,
        ),
    }
}

/// `out` in front of `rest`, when there is a `rest`.
pub open spec fn after<A>(out: Seq<A>, rest: Option<Seq<A>>) -> Option<Seq<A>> {
    match rest {
        None => None,
        Some(r) => Some(out + r),
    }
}

fn cmd_word_end(s: &Vec<char>, i: usize) -> (j: usize)
    requires
        i <= s@.len(),
    ensures
        j == i + cmd_word_len(s@, i as int),
        j <= s@.len(),
{
    let mut j = i;
    while j < s.len() && !space(s[j]) && s[j] != '"' && s[j] != '\'' && s[j] != '|' && s[j]
        != '<' && s[j] != '>'
        invariant
            i <= j <= s@.len(),
            i + cmd_word_len(s@, i as int) == j + cmd_word_len(s@, j as int),
        decreases s@.len() - j,
    {
        j += 1;
    }
    j
}

/// The tokens of `input`, or nothing when a quote is left open.
pub fn lex(input: &String) -> (r: Option<Vec<Token>>)
    ensures
        match tokens(input@, 0) {
            Some(t) => r is Some && r->0@.map_values(|x: Token| x@) == t,
            None => r is None,
        },
{
    let s = chars_of(input.as_str());
    let n = s.len();
    let mut out: Vec<Token> = Vec::new();
    let mut i: usize = 0;
    while i < n
        invariant
            n == s@.len(),
            s@ == input@,
            i <= n,
            tokens(s@, 0) == after(out@.map_values(|x: Token| x@), tokens(s@, i as int)),
        decreases n - i,
    {
        let ghost before = out@.map_values(|x: Token| x@);
        let c = s[i];
        let next: usize;
        if space(c) {
            next = i + 1;
        } else if c == '|' || c == '<' || c == '>' {
            out.push(
                if c == '|' {
                    Token::Pipe
                } else if c == '<' {
                    Token::In
                } else {
                    Token::Out
                },
            );
            next = i + 1;
        } else if c == '"' || c == '\'' {
            let k = until_end(&s, i + 1, c);
            if k >= n {
                return None;
            }
            out.push(Token::Str(sub_string(&s, i + 1, k)));
            next = k + 1;
        } else {
            let j = cmd_word_end(&s, i + 1);
            let e = name_end(&s, i);
            if i < e && e < j && s[e] == '=' {
                if e + 1 == j && j < n && (s[j] == '"' || s[j] == '\'') {
                    let k = until_end(&s, j + 1, s[j]);
                    if k >= n {
                        return None;
                    }
                    out.push(Token::AssignStr(sub_string(&s, i, e), sub_string(&s, j + 1, k)));
                    next = k + 1;
                } else {
                    out.push(Token::AssignWord(sub_string(&s, i, e), sub_string(&s, e + 1, j)));
                    next = j;
                }
            } else {
                out.push(Token::Word(sub_string(&s, i, j)));
                next = j;
            }
        }
        proof {
            let now = out@.map_values(|x: Token| x@);
            if now.len() > before.len() {
                assert(now =~= before.push(now.last()));
                match tokens(s@, next as int) {
                    None => {},
                    Some(rest) => {
                        assert(now + rest =~= before + (seq![now.last()] + rest));
                    },
                }
            } else {
                assert(now =~= before);
            }
        }
        i = next;
    }
    assert(out@.map_values(|x: Token| x@) + Seq::empty() =~= out@.map_values(|x: Token| x@));
    Some(out)
}

pub open spec fn opt_view(p: Option<String>) -> Option<Seq<char>> {
    match p {
        Some(s) => Some(s@),
        None => None,
    }
}

fn redirect_to(p: Pending, path: String) -> (r: Redirect)
    requires
        p != Pending::Nothing,
    ensures
        r@ == redirect_of(p, path@),
{
    match p {
        Pending::In => Redirect::In(path),
        _ => Redirect::Out(path),
    }
}

/// The entries that the tokens form, or nothing when they do not form a
/// pipeline.
pub fn parse_tokens(toks: &Vec<Token>) -> (r: Option<Cmd>)
    ensures
        match entries_from(
            toks@.map_values(|x: Token| x@),
            0,
            Seq::empty(),
            None,
            Seq::empty(),
            Seq::empty(),
            Pending::Nothing,
            false,
        ) {
            Some(c) => r is Some && r->0@ == c,
            None => r is None,
        },
{
    let ghost t = toks@.map_values(|x: Token| x@);
    let mut parts: Vec<CmdType> = Vec::new();
    let mut prog: Option<String> = None;
    let mut args: Vec<Arg> = Vec::new();
    let mut redirects: Vec<Redirect> = Vec::new();
    let mut pending = Pending::Nothing;
    let mut after_pipe = false;
    let mut i: usize = 0;
    assert(parts@.map_values(|p: CmdType| p@) =~= Seq::<CmdTypeV>::empty());
    assert(args@.map_values(|a: Arg| a@) =~= Seq::<ArgV>::empty());
    assert(redirects@.map_values(|r: Redirect| r@) =~= Seq::<RedirectV>::empty());
    while i < toks.len()
        invariant
            t == toks@.map_values(|x: Token| x@),
            i <= toks@.len(),
            entries_from(
                t,
                0,
                Seq::empty(),
                None,
                Seq::empty(),
                Seq::empty(),
                Pending::Nothing,
                false,
            ) == entries_from(
                t,
                i as int,
                parts@.map_values(|p: CmdType| p@),
                opt_view(prog),
                args@.map_values(|a: Arg| a@),
                redirects@.map_values(|r: Redirect| r@),
                pending,
                after_pipe,
            ),
        decreases toks@.len() - i,
    {
        let ghost parts0 = parts@.map_values(|p: CmdType| p@);
        let ghost args0 = args@.map_values(|a: Arg| a@);
        let ghost red0 = redirects@.map_values(|r: Redirect| r@);
        let tok = &toks[i];
        if pending != Pending::Nothing {
            match tok {
                Token::Word(w) | Token::Str(w) => {
                    redirects.push(redirect_to(pending, w.clone()));
                    assert(redirects@.map_values(|r: Redirect| r@) =~= red0.push(
                        redirect_of(pending, w@),
                    ));
                    pending = Pending::Nothing;
                },
                _ => {
                    return None;
                },
            }
        } else {
            match tok {
                Token::Word(w) => {
                    if prog.is_none() {
                        prog = Some(w.clone());
                    } else {
                        args.push(Arg::Word(w.clone()));
                        assert(args@.map_values(|a: Arg| a@) =~= args0.push(ArgV::Word(w@)));
                    }
                },
                Token::Str(w) => {
                    if prog.is_none() {
                        prog = Some(w.clone());
                    } else {
                        args.push(Arg::String(w.clone()));
                        assert(args@.map_values(|a: Arg| a@) =~= args0.push(ArgV::Str(w@)));
                    }
                },
                Token::AssignWord(n, v) => {
                    if prog.is_none() {
                        parts.push(CmdType::Variable(n.clone(), v.clone()));
                        assert(parts@.map_values(|p: CmdType| p@) =~= parts0.push(
                            CmdTypeV::Variable(n@, v@),
                        ));
                    } else {
                        args.push(Arg::Assignment(n.clone(), Assignment::Word(v.clone())));
                        assert(args@.map_values(|a: Arg| a@) =~= args0.push(
                            ArgV::AssignWord(n@, v@),
                        ));
                    }
                },
                Token::AssignStr(n, v) => {
                    if prog.is_none() {
                        parts.push(CmdType::Variable(n.clone(), v.clone()));
                        assert(parts@.map_values(|p: CmdType| p@) =~= parts0.push(
                            CmdTypeV::Variable(n@, v@),
                        ));
                    } else {
                        args.push(Arg::Assignment(n.clone(), Assignment::String(v.clone())));
                        assert(args@.map_values(|a: Arg| a@) =~= args0.push(
                            ArgV::AssignStr(n@, v@),
                        ));
                    }
                },
                Token::Pipe => {
                    match prog {
                        None => {
                            return None;
                        },
                        Some(p) => {
                            let stage = CmdPart { cmd: p, args, redirects };
                            parts.push(CmdType::Cmd(stage));
                            assert(parts@.map_values(|p: CmdType| p@) =~= parts0.push(
                                CmdTypeV::Stage(CmdPartV { cmd: p@, args: args0, redirects: red0 }),
                            ));
                            prog = None;
                            args = Vec::new();
                            redirects = Vec::new();
                            after_pipe = true;
                            assert(args@.map_values(|a: Arg| a@) =~= Seq::<ArgV>::empty());
                            assert(redirects@.map_values(|r: Redirect| r@) =~= Seq::<
                                RedirectV,
                            >::empty());
                        },
                    }
                },
                Token::In => {
                    if prog.is_none() {
                        return None;
                    }
                    pending = Pending::In;
                },
                Token::Out => {
                    if prog.is_none() {
                        return None;
                    }
                    pending = Pending::Out;
                },
            }
        }
        i += 1;
    }
    if pending != Pending::Nothing {
        return None;
    }
    match prog {
        Some(p) => {
            let ghost parts0 = parts@.map_values(|p: CmdType| p@);
            let ghost args0 = args@.map_values(|a: Arg| a@);
            let ghost red0 = redirects@.map_values(|r: Redirect| r@);
            parts.push(CmdType::Cmd(CmdPart { cmd: p, args, redirects }));
            assert(parts@.map_values(|p: CmdType| p@) =~= parts0.push(
                CmdTypeV::Stage(CmdPartV { cmd: p@, args: args0, redirects: red0 }),
            ));
        },
        None => {
            if after_pipe {
                return None;
            }
        },
    }
    Some(Cmd { parts })
}

/// The third pass over `input`.
pub fn parse_command(input: &String) -> (r: Result<Cmd, ParseError>)
    ensures
        match command_spec(input@) {
            Some(c) => r is Ok && r->Ok_0@ == c,
            None => r is Err && syntax_error(r->Err_0, input@, COMMAND_PASS@),
        },
{
    match lex(input) {
        None => Err(syntax_error_of(input, COMMAND_PASS)),
        Some(toks) => match parse_tokens(&toks) {
            None => Err(syntax_error_of(input, COMMAND_PASS)),
            Some(c) => Ok(c),
        },
    }
}

} // verus!
