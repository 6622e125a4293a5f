//! Prompt templates: `%` escapes in otherwise literal text, and their
//! expansion from the session's user name, the working directory, the home
//! path and a version-control summary.
//!
//! Escapes: `%%` a percent sign, `%n` the user name, `%d` the working
//! directory, `%~` the working directory with the home path abbreviated,
//! `%P` and `%c` the parent directories and the last component of the
//! latter, `%F{color}` and `%f` a text color and its end, `%K{color}` and
//! `%k` a background color and its end, `%g` the version-control summary.
//! A color is a palette number up to 255 or a color name.

use vstd::prelude::*;
use crate::colors::{
    bg_color, bg_color_code, color_code_text, color_named, color_number, fg_color, fg_color_code,
    reset_color, Color, ColorError,
};
use crate::replacements::{
    abbreviate_home, home_marker, lemma_until_len_bound, sub_string, until_end, until_len,
};
use crate::text::{chars_of, push_string, replaced, string_of};

verus! {

pub type PromptCmd = Vec<PromptCmdPart>;

#[derive(Debug)]
pub enum PromptCmdPart {
    Escaped(PromptEscape),
    Cmd(String),
}

#[derive(Debug)]
pub enum PromptEscape {
    EscapeChar,
    Username,
    Cwd,
    CwdHome,
    /// Only the parent directories of the working directory.
    CwdHomeParents,
    /// Only the last component of the working directory.
    CwdHomeCurrent,
    FGColorStart(Argument),
    FGColorEnd,
    BGColorStart(Argument),
    BGColorEnd,
    Git,
}

#[derive(Debug)]
pub enum Argument {
    Number(u8),
    Word(String),
}

pub enum ArgumentV {
    Number(u8),
    Word(Seq<char>),
}

pub enum PromptPartV {
    Escaped(PromptEscapeV),
    Text(Seq<char>),
}

pub enum PromptEscapeV {
    EscapeChar,
    Username,
    Cwd,
    CwdHome,
    CwdHomeParents,
    CwdHomeCurrent,
    FGColorStart(ArgumentV),
    FGColorEnd,
    BGColorStart(ArgumentV),
    BGColorEnd,
    Git,
}

impl View for Argument {
    type V = ArgumentV;

    open spec fn view(&self) -> ArgumentV {
        match self {
            Argument::Number(n) => ArgumentV::Number(*n),
            Argument::Word(w) => ArgumentV::Word(w@),
        }
    }
}

impl View for PromptEscape {
    type V = PromptEscapeV;

    open spec fn view(&self) -> PromptEscapeV {
        match self {
            PromptEscape::EscapeChar => PromptEscapeV::EscapeChar,
            PromptEscape::Username => PromptEscapeV::Username,
            PromptEscape::Cwd => PromptEscapeV::Cwd,
            PromptEscape::CwdHome => PromptEscapeV::CwdHome,
            PromptEscape::CwdHomeParents => PromptEscapeV::CwdHomeParents,
            PromptEscape::CwdHomeCurrent => PromptEscapeV::CwdHomeCurrent,
            PromptEscape::FGColorStart(a) => PromptEscapeV::FGColorStart(a@),
            PromptEscape::FGColorEnd => PromptEscapeV::FGColorEnd,
            PromptEscape::BGColorStart(a) => PromptEscapeV::BGColorStart(a@),
            PromptEscape::BGColorEnd => PromptEscapeV::BGColorEnd,
            PromptEscape::Git => PromptEscapeV::Git,
        }
    }
}

impl View for PromptCmdPart {
    type V = PromptPartV;

    open spec fn view(&self) -> PromptPartV {
        match self {
            PromptCmdPart::Escaped(e) => PromptPartV::Escaped(e@),
            PromptCmdPart::Cmd(s) => PromptPartV::Text(s@),
        }
    }
}

pub open spec fn is_digit(c: char) -> bool {
    '0' <= c && c <= '9'
}

/// The value of a run of decimal digits.
pub open spec fn digits_value(s: Seq<char>) -> nat
    decreases s.len(),
{
    if s.len() == 0 {
        0
    } else {
        digits_value(s.drop_last()) * 10 + (s.last() as nat - '0' as nat) as nat
    }
}

/// A color argument: a palette number when it is one to three digits worth
/// at most 255, else a word.
pub open spec fn argument_of(a: Seq<char>) -> ArgumentV {
    if 1 <= a.len() <= 3 && (forall|i: int| 0 <= i < a.len() ==> is_digit(a[i])) && digits_value(a)
        <= 255 {
        ArgumentV::Number(digits_value(a) as u8)
    } else {
        ArgumentV::Word(a)
    }
}

pub open spec fn simple_escape(c: char) -> Option<PromptEscapeV> {
    if c == '%' {
        Some(PromptEscapeV::EscapeChar)
    } else if c == 'n' {
        Some(PromptEscapeV::Username)
    } else if c == 'd' {
        Some(PromptEscapeV::Cwd)
    } else if c == '~' {
        Some(PromptEscapeV::CwdHome)
    } else if c == 'P' {
        Some(PromptEscapeV::CwdHomeParents)
    } else if c == 'c' {
        Some(PromptEscapeV::CwdHomeCurrent)
    } else if c == 'f' {
        Some(PromptEscapeV::FGColorEnd)
    } else if c == 'k' {
        Some(PromptEscapeV::BGColorEnd)
    } else if c == 'g' {
        Some(PromptEscapeV::Git)
    } else {
        None
    }
}

/// The parts of template `s` from position `i` on, or nothing for an
/// unknown or unfinished escape.
pub open spec fn prompt_parts(s: Seq<char>, i: int) -> Option<Seq<PromptPartV>>
    decreases s.len() - i via prompt_parts_decreases
{
    if i < 0 || i >= s.len() {
        Some(Seq::empty())
    } else if s[i] != '%' {
        let j = i + 1 + until_len(s, i + 1, '%');
        crate::replacements::prepend(PromptPartV::Text(s.subrange(i, j)), prompt_parts(s, j))
    } else if i + 1 >= s.len() {
        None
    } else if s[i + 1] == 'F' || s[i + 1] == 'K' {
        if i + 2 >= s.len() || s[i + 2] != '{' {
            None
        } else {
            let k = i + 3 + until_len(s, i + 3, '}');
            if k >= s.len() {
                None
            } else {
                let a = argument_of(s.subrange(i + 3, k));
                crate::replacements::prepend(
                    PromptPartV::Escaped(
                        if s[i + 1] == 'F' {
                            PromptEscapeV::FGColorStart(a)
                        } else {
                            PromptEscapeV::BGColorStart(a)
                        },
                    ),
                    prompt_parts(s, k + 1),
                )
            }
        }
    } else {
        match simple_escape(s[i + 1]) {
            None => None,
            Some(e) => crate::replacements::prepend(PromptPartV::Escaped(e), prompt_parts(s, i + 2)),
        }
    }
}

#[via_fn]
proof fn prompt_parts_decreases(s: Seq<char>, i: int) {
    if 0 <= i < s.len() {
        lemma_until_len_bound(s, i + 1, '%');
    }
}

fn argument_from(s: &Vec<char>, from: usize, to: usize) -> (r: Argument)
    requires
        from <= to <= s@.len(),
    ensures
        r@ == argument_of(s@.subrange(from as int, to as int)),
{
    let ghost a = s@.subrange(from as int, to as int);
    if to - from >= 1 && to - from <= 3 {
        let mut v: u32 = 0;
        let mut i = from;
        while i < to
            invariant
                from <= i <= to <= s@.len(),
                to - from <= 3,
                a == s@.subrange(from as int, to as int),
                forall|j: int| 0 <= j < i - from ==> is_digit(a[j]),
                v as nat == digits_value(a.take(i - from)),
                v < 1000,
            decreases to - i,
        {
            let c = s[i];
            if !('0' <= c && c <= '9') {
                assert(!is_digit(a[i - from]));
                return Argument::Word(sub_string(s, from, to));
            }
            assert(a.take(i + 1 - from).drop_last() =~= a.take(i - from));
            assert(a.take(i + 1 - from).last() == c);
            assert(digits_value(a.take(i - from)) < 100) by {
                if i - from >= 3 {
                    assert(false);
                }
                lemma_digits_small(a.take(i - from));
            }
            v = v * 10 + (c as u32 - '0' as u32);
            i += 1;
        }
        assert(a.take(to - from) =~= a);
        if v <= 255 {
            return Argument::Number(v as u8);
        }
    }
    Argument::Word(sub_string(s, from, to))
}

proof fn lemma_digits_small(a: Seq<char>)
    requires
        a.len() <= 2,
        forall|j: int| 0 <= j < a.len() ==> is_digit(a[j]),
    ensures
        digits_value(a) < 100,
    decreases a.len(),
{
    if a.len() > 0 {
        lemma_digits_small(a.drop_last());
        assert(a.drop_last().len() <= 1);
        if a.drop_last().len() == 1 {
            assert(digits_value(a.drop_last().drop_last()) == 0);
        }
    }
}

fn simple_escape_of(c: char) -> (r: Option<PromptEscape>)
    ensures
        match simple_escape(c) {
            Some(e) => r is Some && r->0@ == e,
            None => r is None,
        },
{
    if c == '%' {
        Some(PromptEscape::EscapeChar)
    } else if c == 'n' {
        Some(PromptEscape::Username)
    } else if c == 'd' {
        Some(PromptEscape::Cwd)
    } else if c == '~' {
        Some(PromptEscape::CwdHome)
    } else if c == 'P' {
        Some(PromptEscape::CwdHomeParents)
    } else if c == 'c' {
        Some(PromptEscape::CwdHomeCurrent)
    } else if c == 'f' {
        Some(PromptEscape::FGColorEnd)
    } else if c == 'k' {
        Some(PromptEscape::BGColorEnd)
    } else if c == 'g' {
        Some(PromptEscape::Git)
    } else {
        None
    }
}

/// The parts of a prompt template, or nothing for an unknown or unfinished
/// escape.
pub fn parse_prompt(template: &String) -> (r: Option<PromptCmd>)
    ensures
        match prompt_parts(template@, 0) {
            Some(p) => r is Some && r->0@.map_values(|x: PromptCmdPart| x@) == p,
            None => r is None,
        },
{
    let s = chars_of(template.as_str());
    let n = s.len();
    let mut out: Vec<PromptCmdPart> = Vec::new();
    let mut i: usize = 0;
    while i < n
        invariant
            n == s@.len(),
            s@ == template@,
            i <= n,
            prompt_parts(s@, 0) == crate::grammar::after(
                out@.map_values(|x: PromptCmdPart| x@),
                prompt_parts(s@, i as int),
            ),
        decreases n - i,
    {
        let ghost before = out@.map_values(|x: PromptCmdPart| x@);
        let next: usize;
        if s[i] != '%' {
            let j = until_end(&s, i + 1, '%');
            out.push(PromptCmdPart::Cmd(sub_string(&s, i, j)));
            next = j;
        } else if n - i < 2 {
            return None;
        } else if s[i + 1] == 'F' || s[i + 1] == 'K' {
            if n - i < 3 || s[i + 2] != '{' {
                return None;
            }
            let k = until_end(&s, i + 3, '}');
            if k >= n {
                return None;
            }
            let a = argument_from(&s, i + 3, k);
            out.push(
                PromptCmdPart::Escaped(
                    if s[i + 1] == 'F' {
                        PromptEscape::FGColorStart(a)
                    } else {
                        PromptEscape::BGColorStart(a)
                    },
                ),
            );
            next = k + 1;
        } else {
            match simple_escape_of(s[i + 1]) {
                None => {
                    return None;
                },
                Some(e) => {
                    out.push(PromptCmdPart::Escaped(e));
                    next = i + 2;
                },
            }
        }
        proof {
            let now = out@.map_values(|x: PromptCmdPart| x@);
            assert(now =~= before.push(now.last()));
            match prompt_parts(s@, next as int) {
                None => {},
                Some(rest) => {
                    assert(now + rest =~= before + (seq![now.last()] + rest));
                },
            }
        }
        i = next;
    }
    assert(out@.map_values(|x: PromptCmdPart| x@) + Seq::empty() =~= out@.map_values(
        |x: PromptCmdPart| x@,
    ));
    Some(out)
}

/// What the prompt's escapes read: plain values gathered before expansion.
pub struct PromptContext {
    pub username: String,
    pub cwd: String,
    pub home: String,
    pub git: String,
}

/// Index of the last `c` in `s`, or -1.
pub open spec fn last_index_of(s: Seq<char>, c: char) -> int
    decreases s.len(),
{
    if s.len() == 0 {
        -1
    } else if s.last() == c {
        s.len() - 1
    } else {
        last_index_of(s.drop_last(), c)
    }
}

pub open spec fn cwd_home(ctx: &PromptContext) -> Seq<char> {
    replaced(ctx.cwd@, ctx.home@, home_marker())
}

pub open spec fn color_text(a: ArgumentV, is_fg: bool) -> Result<Seq<char>, Seq<char>> {
    match a {
        ArgumentV::Number(n) => Ok(color_code_text(n, is_fg)),
        ArgumentV::Word(w) => match color_named(w) {
            Some(c) => Ok(color_code_text(color_number(c), is_fg)),
            None => Err(w),
        },
    }
}

/// What an escape expands to, or the unknown color name it holds.
pub open spec fn escape_text(e: PromptEscapeV, ctx: &PromptContext) -> Result<Seq<char>, Seq<char>> {
    match e {
        PromptEscapeV::EscapeChar => Ok(seq!['%']),
        PromptEscapeV::Username => Ok(ctx.username@),
        PromptEscapeV::Cwd => Ok(ctx.cwd@),
        PromptEscapeV::CwdHome => Ok(cwd_home(ctx)),
        PromptEscapeV::CwdHomeParents => Ok(
            cwd_home(ctx).take(last_index_of(cwd_home(ctx), '/') + 1),
        ),
        PromptEscapeV::CwdHomeCurrent => Ok(
            cwd_home(ctx).skip(last_index_of(cwd_home(ctx), '/') + 1),
        ),
        PromptEscapeV::FGColorStart(a) => color_text(a, true),
        PromptEscapeV::BGColorStart(a) => color_text(a, false),
        PromptEscapeV::FGColorEnd => Ok(seq!['\x1b', '[', '0', 'm']),
        PromptEscapeV::BGColorEnd => Ok(seq!['\x1b', '[', '0', 'm']),
        PromptEscapeV::Git => Ok(ctx.git@),
    }
}

/// The text of a template's parts, or the first unknown color name.
pub open spec fn prompt_text(parts: Seq<PromptPartV>, ctx: &PromptContext) -> Result<
    Seq<char>,
    Seq<char>,
>
    decreases parts.len(),
{
    if parts.len() == 0 {
        Ok(Seq::empty())
    } else {
        match prompt_text(parts.drop_last(), ctx) {
            Err(w) => Err(w),
            Ok(t) => match parts.last() {
                PromptPartV::Text(s) => Ok(t + s),
                PromptPartV::Escaped(e) => match escape_text(e, ctx) {
                    Err(w) => Err(w),
                    Ok(x) => Ok(t + x),
                },
            },
        }
    }
}

fn last_slash(s: &Vec<char>) -> (r: usize)
    ensures
        r as int == last_index_of(s@, '/') + 1,
        r <= s@.len(),
{
    let mut i = s.len();
    assert(s@.take(i as int) =~= s@);
    while i > 0
        invariant
            i <= s@.len(),
            last_index_of(s@, '/') == last_index_of(s@.take(i as int), '/'),
        decreases i,
    {
        assert(s@.take(i as int).drop_last() =~= s@.take(i - 1));
        if s[i - 1] == '/' {
            return i;
        }
        i -= 1;
    }
    i
}

fn color_escape(a: &Argument, is_fg: bool) -> (r: Result<String, ColorError>)
    ensures
        match color_text(a@, is_fg) {
            Ok(t) => r is Ok && r->Ok_0@ == t,
            Err(w) => r is Err && r->Err_0->InvalidColor_0@ == w,
        },
{
    match a {
        Argument::Number(n) => Ok(
            if is_fg {
                fg_color_code(*n)
            } else {
                bg_color_code(*n)
            },
        ),
        Argument::Word(w) => {
            let c = Color::from_string(w.as_str())?;
            Ok(
                if is_fg {
                    fg_color(c)
                } else {
                    bg_color(c)
                },
            )
        },
    }
}

/// Expands one escape.
pub fn handle_prompt_escape(e: &PromptEscape, ctx: &PromptContext) -> (r: Result<String, ColorError>)
    ensures
        match escape_text(e@, ctx) {
            Ok(t) => r is Ok && r->Ok_0@ == t,
            Err(w) => r is Err && r->Err_0->InvalidColor_0@ == w,
        },
{
    match e {
        PromptEscape::EscapeChar => {
            let v = vec!['%'];
            Ok(string_of(&v))
        },
        PromptEscape::Username => Ok(ctx.username.clone()),
        PromptEscape::Cwd => Ok(ctx.cwd.clone()),
        PromptEscape::CwdHome => Ok(abbreviate_home(&ctx.cwd, &ctx.home)),
        PromptEscape::CwdHomeParents => {
            let a = chars_of(abbreviate_home(&ctx.cwd, &ctx.home).as_str());
            let k = last_slash(&a);
            Ok(sub_string(&a, 0, k))
        },
        PromptEscape::CwdHomeCurrent => {
            let a = chars_of(abbreviate_home(&ctx.cwd, &ctx.home).as_str());
            let k = last_slash(&a);
            let r = sub_string(&a, k, a.len());
            assert(a@.subrange(k as int, a@.len() as int) =~= a@.skip(k as int));
            Ok(r)
        },
        PromptEscape::FGColorStart(a) => color_escape(a, true),
        PromptEscape::BGColorStart(a) => color_escape(a, false),
        PromptEscape::FGColorEnd => Ok(reset_color()),
        PromptEscape::BGColorEnd => Ok(reset_color()),
        PromptEscape::Git => Ok(ctx.git.clone()),
    }
}

proof fn lemma_prompt_err(parts: Seq<PromptPartV>, n: int, ctx: &PromptContext)
    requires
        0 <= n <= parts.len(),
        prompt_text(parts.take(n), ctx) is Err,
    ensures
        prompt_text(parts, ctx) == prompt_text(parts.take(n), ctx),
    decreases parts.len(),
{
    if n == parts.len() {
        assert(parts.take(n) =~= parts);
    } else {
        assert(parts.drop_last().take(n) =~= parts.take(n));
        lemma_prompt_err(parts.drop_last(), n, ctx);
    }
}

/// Expands a template's parts into the prompt text.
pub fn prompt_expand(parts: &PromptCmd, ctx: &PromptContext) -> (r: Result<String, ColorError>)
    ensures
        match prompt_text(parts@.map_values(|x: PromptCmdPart| x@), ctx) {
            Ok(t) => r is Ok && r->Ok_0@ == t,
            Err(w) => r is Err && r->Err_0->InvalidColor_0@ == w,
        },
{
    let ghost all = parts@.map_values(|x: PromptCmdPart| x@);
    let mut out = String::new();
    let mut i: usize = 0;
    while i < parts.len()
        invariant
            all == parts@.map_values(|x: PromptCmdPart| x@),
            i <= parts@.len(),
            prompt_text(all.take(i as int), ctx) == Ok::<Seq<char>, Seq<char>>(out@),
        decreases parts@.len() - i,
    {
        assert(all.take(i + 1).drop_last() =~= all.take(i as int));
        assert(all.take(i + 1).last() == parts@[i as int]@);
        match &parts[i] {
            PromptCmdPart::Cmd(t) => push_string(&mut out, t),
            PromptCmdPart::Escaped(e) => match handle_prompt_escape(e, ctx) {
                Ok(x) => push_string(&mut out, &x),
                Err(err) => {
                    proof {
                        lemma_prompt_err(all, i + 1, ctx);
                    }
                    return Err(err);
                },
            },
        }
        i += 1;
    }
    assert(all.take(i as int) =~= all);
    Ok(out)
}

} // verus!
