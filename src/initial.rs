//! The first pass: comment detection, single-quoted regions, and the bounds
//! of nested command substitutions `$( ... )`.
//!
//! Single-quoted text is taken as it stands. Double quotes are kept in the
//! literal text; within them a `'` or `)` is an ordinary character, while a
//! substitution may still start, and its inner command has quoting of its
//! own. An open quote or an unbalanced `)` is a syntax error.

use vstd::prelude::*;
use crate::errors::{syntax_error, syntax_error_of, ParseError, INITIAL_PASS};
use crate::replacements::space_len;
use crate::text::{chars_of, space, string_of};
use crate::types::{InitialCmd, InitialCmdPart, InitialPartV};

verus! {

/// The first character that is not whitespace is the comment marker `#`.
pub open spec fn is_comment(s: Seq<char>) -> bool {
    space_len(s, 0) < s.len() && s[space_len(s, 0) as int] == '#'
}

/// `out` with the literal text `buf` added, when there is any.
pub open spec fn flushed(out: Seq<InitialPartV>, buf: Seq<char>) -> Seq<InitialPartV> {
    if buf.len() == 0 {
        out
    } else {
        out.push(InitialPartV::Text(buf))
    }
}

/// A substitution starts at `i`.
pub open spec fn opens_at(s: Seq<char>, i: int) -> bool {
    0 <= i && i + 1 < s.len() && s[i] == '$' && s[i + 1] == '('
}

/// The parts of `s`, scanned from position `i` on, given one flag for each
/// open level (outermost first) that says whether a double quote is open
/// there, whether a single quote is open, the text gathered since the last
/// part, and the parts so far. Nothing on a syntax error.
pub open spec fn initial_scan(
    s: Seq<char>,
    i: int,
    levels: Seq<bool>,
    in_sq: bool,
    buf: Seq<char>,
    out: Seq<InitialPartV>,
) -> Option<Seq<InitialPartV>>
    decreases s.len() - i,
{
    if i < 0 || i >= s.len() || levels.len() == 0 {
        if in_sq || levels.len() != 1 || levels[0] {
            None
        } else {
            Some(flushed(out, buf))
        }
    } else if in_sq {
        if s[i] == '\'' {
            initial_scan(s, i + 1, levels, false, Seq::empty(), out.push(InitialPartV::Quoted(buf)))
        } else {
            initial_scan(s, i + 1, levels, true, buf.push(s[i]), out)
        }
    } else if opens_at(s, i) {
        initial_scan(
            s,
            i + 2,
            levels.push(false),
            false,
            Seq::empty(),
            flushed(out, buf).push(InitialPartV::Open),
        )
    } else if s[i] == '\'' && !levels.last() {
        initial_scan(s, i + 1, levels, true, Seq::empty(), flushed(out, buf))
    } else if s[i] == ')' && !levels.last() {
        if levels.len() > 1 {
            initial_scan(
                s,
                i + 1,
                levels.drop_last(),
                false,
                Seq::empty(),
                flushed(out, buf).push(InitialPartV::Close),
            )
        } else {
            None
        }
    } else if s[i] == '"' {
        initial_scan(
            s,
            i + 1,
            levels.drop_last().push(!levels.last()),
            false,
            buf.push(s[i]),
            out,
        )
    } else {
        initial_scan(s, i + 1, levels, false, buf.push(s[i]), out)
    }
}

/// Open substitutions after the first `n` parts.
pub open spec fn depth(parts: Seq<InitialPartV>, n: int) -> int
    decreases n,
{
    if n <= 0 || n > parts.len() {
        0
    } else {
        depth(parts, n - 1) + match parts[n - 1] {
            InitialPartV::Open => 1int,
            InitialPartV::Close => -1int,
            _ => 0int,
        }
    }
}

/// Every end closes an open substitution, and none is left open.
pub open spec fn balanced(parts: Seq<InitialPartV>) -> bool {
    &&& forall|n: int| 0 <= n <= parts.len() ==> depth(parts, n) >= 0
    &&& depth(parts, parts.len() as int) == 0
}

proof fn lemma_depth_push(parts: Seq<InitialPartV>, x: InitialPartV, n: int)
    requires
        0 <= n <= parts.len(),
    ensures
        depth(parts.push(x), n) == depth(parts, n),
    decreases n,
{
    if n > 0 {
        lemma_depth_push(parts, x, n - 1);
    }
}

proof fn lemma_balanced_push(parts: Seq<InitialPartV>, x: InitialPartV, d: int)
    requires
        forall|n: int| 0 <= n <= parts.len() ==> depth(parts, n) >= 0,
        depth(parts, parts.len() as int) == d,
        d + match x {
            InitialPartV::Open => 1int,
            InitialPartV::Close => -1int,
            _ => 0int,
        } >= 0,
    ensures
        forall|n: int| 0 <= n <= parts.len() + 1 ==> depth(parts.push(x), n) >= 0,
        depth(parts.push(x), parts.len() + 1int) == d + match x {
            InitialPartV::Open => 1int,
            InitialPartV::Close => -1int,
            _ => 0int,
        },
{
    lemma_depth_push(parts, x, parts.len() as int);
    assert(parts.push(x)[parts.len() as int] == x);
    assert forall|n: int| 0 <= n <= parts.len() + 1 implies depth(parts.push(x), n) >= 0 by {
        if n <= parts.len() {
            lemma_depth_push(parts, x, n);
        }
    }
}

proof fn lemma_scan_balanced(
    s: Seq<char>,
    i: int,
    levels: Seq<bool>,
    in_sq: bool,
    buf: Seq<char>,
    out: Seq<InitialPartV>,
)
    requires
        levels.len() >= 1,
        forall|n: int| 0 <= n <= out.len() ==> depth(out, n) >= 0,
        depth(out, out.len() as int) == levels.len() - 1,
    ensures
        initial_scan(s, i, levels, in_sq, buf, out) matches Some(r) ==> balanced(r),
    decreases s.len() - i,
{
    let d = levels.len() - 1;
    let f = flushed(out, buf);
    if buf.len() > 0 {
        lemma_balanced_push(out, InitialPartV::Text(buf), d);
    }
    if i < 0 || i >= s.len() {
    } else if in_sq {
        if s[i] == '\'' {
            lemma_balanced_push(out, InitialPartV::Quoted(buf), d);
            lemma_scan_balanced(s, i + 1, levels, false, Seq::empty(), out.push(InitialPartV::Quoted(buf)));
        } else {
            lemma_scan_balanced(s, i + 1, levels, true, buf.push(s[i]), out);
        }
    } else if opens_at(s, i) {
        lemma_balanced_push(f, InitialPartV::Open, d);
        lemma_scan_balanced(s, i + 2, levels.push(false), false, Seq::empty(), f.push(InitialPartV::Open));
    } else if s[i] == '\'' && !levels.last() {
        lemma_scan_balanced(s, i + 1, levels, true, Seq::empty(), f);
    } else if s[i] == ')' && !levels.last() {
        if levels.len() > 1 {
            lemma_balanced_push(f, InitialPartV::Close, d);
            lemma_scan_balanced(s, i + 1, levels.drop_last(), false, Seq::empty(), f.push(InitialPartV::Close));
        }
    } else if s[i] == '"' {
        lemma_scan_balanced(s, i + 1, levels.drop_last().push(!levels.last()), false, buf.push(s[i]), out);
    } else {
        lemma_scan_balanced(s, i + 1, levels, false, buf.push(s[i]), out);
    }
}

/// What the first pass makes of a line that is not a comment.
pub open spec fn initial_spec(s: Seq<char>) -> Option<Seq<InitialPartV>> {
    initial_scan(s, 0, seq![false], false, Seq::empty(), Seq::empty())
}

/// The text a part stands for in the line.
pub open spec fn source_of(p: InitialPartV) -> Seq<char> {
    match p {
        InitialPartV::Text(t) => t,
        InitialPartV::Quoted(t) => seq!['\''] + t + seq!['\''],
        InitialPartV::Open => seq!['$', '('],
        InitialPartV::Close => seq![')'],
    }
}

/// The text that the parts stand for, in order.
pub open spec fn render(parts: Seq<InitialPartV>) -> Seq<char>
    decreases parts.len(),
{
    if parts.len() == 0 {
        Seq::empty()
    } else {
        render(parts.drop_last()) + source_of(parts.last())
    }
}

proof fn lemma_render_push(parts: Seq<InitialPartV>, x: InitialPartV)
    ensures
        render(parts.push(x)) == render(parts) + source_of(x),
{
    assert(parts.push(x).drop_last() =~= parts);
}

proof fn lemma_render_flushed(out: Seq<InitialPartV>, buf: Seq<char>)
    ensures
        render(flushed(out, buf)) == render(out) + buf,
{
    if buf.len() > 0 {
        lemma_render_push(out, InitialPartV::Text(buf));
    } else {
        assert(render(out) + buf =~= render(out));
    }
}

proof fn lemma_scan_render(
    s: Seq<char>,
    i: int,
    levels: Seq<bool>,
    in_sq: bool,
    buf: Seq<char>,
    out: Seq<InitialPartV>,
)
    requires
        0 <= i <= s.len(),
        levels.len() >= 1,
    ensures
        initial_scan(s, i, levels, in_sq, buf, out) matches Some(r) ==> render(r) == render(out) + (
        if in_sq {
            seq!['\''] + buf
        } else {
            buf
        }) + s.skip(i),
    decreases s.len() - i,
{
    let f = flushed(out, buf);
    lemma_render_flushed(out, buf);
    if i >= s.len() {
        assert(s.skip(i) =~= Seq::<char>::empty());
        assert(render(out) + buf + s.skip(i) =~= render(out) + buf);
    } else {
        let rest = s.skip(i + 1);
        assert(s.skip(i) =~= seq![s[i]] + rest);
        if in_sq {
            if s[i] == '\'' {
                lemma_render_push(out, InitialPartV::Quoted(buf));
                lemma_scan_render(s, i + 1, levels, false, Seq::empty(), out.push(InitialPartV::Quoted(buf)));
                assert(render(out) + (seq!['\''] + buf + seq!['\'']) + Seq::empty() + rest =~= render(out)
                    + (seq!['\''] + buf) + s.skip(i));
            } else {
                lemma_scan_render(s, i + 1, levels, true, buf.push(s[i]), out);
                assert(render(out) + (seq!['\''] + buf.push(s[i])) + rest =~= render(out) + (seq!['\'']
                    + buf) + s.skip(i));
            }
        } else if opens_at(s, i) {
            lemma_render_push(f, InitialPartV::Open);
            lemma_scan_render(s, i + 2, levels.push(false), false, Seq::empty(), f.push(InitialPartV::Open));
            assert(s.skip(i) =~= seq!['$', '('] + s.skip(i + 2));
            assert(render(out) + buf + seq!['$', '('] + Seq::empty() + s.skip(i + 2) =~= render(out) + buf
                + s.skip(i));
        } else if s[i] == '\'' && !levels.last() {
            lemma_scan_render(s, i + 1, levels, true, Seq::empty(), f);
            assert(render(out) + buf + (seq!['\''] + Seq::empty()) + rest =~= render(out) + buf + s.skip(i));
        } else if s[i] == ')' && !levels.last() {
            if levels.len() > 1 {
                lemma_render_push(f, InitialPartV::Close);
                lemma_scan_render(s, i + 1, levels.drop_last(), false, Seq::empty(), f.push(InitialPartV::Close));
                assert(render(out) + buf + seq![')'] + Seq::empty() + rest =~= render(out) + buf + s.skip(i));
            }
        } else if s[i] == '"' {
            lemma_scan_render(s, i + 1, levels.drop_last().push(!levels.last()), false, buf.push(s[i]), out);
            assert(render(out) + buf.push(s[i]) + rest =~= render(out) + buf + s.skip(i));
        } else {
            lemma_scan_render(s, i + 1, levels, false, buf.push(s[i]), out);
            assert(render(out) + buf.push(s[i]) + rest =~= render(out) + buf + s.skip(i));
        }
    }
}

/// The first pass keeps every character: its parts stand for exactly the
/// text of the line.
pub proof fn lemma_initial_keeps_text(s: Seq<char>)
    ensures
        initial_spec(s) matches Some(r) ==> render(r) == s,
{
    lemma_scan_render(s, 0, seq![false], false, Seq::empty(), Seq::empty());
    assert(Seq::<char>::empty() + Seq::<char>::empty() + s.skip(0) =~= s);
}

fn flush(out: &mut Vec<InitialCmdPart>, buf: &Vec<char>)
    ensures
        final(out)@.map_values(|p: InitialCmdPart| p@) == flushed(
            old(out)@.map_values(|p: InitialCmdPart| p@),
            buf@,
        ),
{
    let ghost before = out@.map_values(|p: InitialCmdPart| p@);
    if buf.len() > 0 {
        out.push(InitialCmdPart::String(string_of(buf)));
        assert(out@.map_values(|p: InitialCmdPart| p@) =~= before.push(InitialPartV::Text(buf@)));
    }
}

fn first_is_comment(s: &Vec<char>) -> (r: bool)
    ensures
        r == is_comment(s@),
{
    let mut j: usize = 0;
    while j < s.len() && space(s[j])
        invariant
            j <= s@.len(),
            space_len(s@, 0) == j + space_len(s@, j as int),
        decreases s@.len() - j,
    {
        j += 1;
    }
    j < s.len() && s[j] == '#'
}

/// The first pass over `input`: `Comment` for a comment line, a syntax
/// error for an open quote or unbalanced substitution, else the parts.
pub fn parse_initial_cmd(input: &String) -> (r: Result<InitialCmd, ParseError>)
    ensures
        is_comment(input@) ==> r is Err && r->Err_0 is Comment,
        !is_comment(input@) ==> match initial_spec(input@) {
            Some(p) => r is Ok && r->Ok_0@ == p && balanced(p),
            None => r is Err && syntax_error(r->Err_0, input@, INITIAL_PASS@),
        },
{
    let s = chars_of(input.as_str());
    proof {
        lemma_scan_balanced(s@, 0, seq![false], false, Seq::empty(), Seq::empty());
    }
    if first_is_comment(&s) {
        return Err(ParseError::Comment);
    }
    let n = s.len();
    let mut levels: Vec<bool> = vec![false];
    let mut in_sq = false;
    let mut buf: Vec<char> = Vec::new();
    let mut out: Vec<InitialCmdPart> = Vec::new();
    let mut i: usize = 0;
    assert(levels@ =~= seq![false]);
    assert(out@.map_values(|p: InitialCmdPart| p@) =~= Seq::<InitialPartV>::empty());
    while i < n
        invariant
            n == s@.len(),
            s@ == input@,
            i <= n,
            levels@.len() >= 1,
            !is_comment(s@),
            initial_spec(s@) == initial_scan(
                s@,
                i as int,
                levels@,
                in_sq,
                buf@,
                out@.map_values(|p: InitialCmdPart| p@),
            ),
        decreases n - i,
    {
        let ghost before = out@.map_values(|p: InitialCmdPart| p@);
        let c = s[i];
        let top = levels[levels.len() - 1];
        assert(levels@.last() == top);
        if in_sq {
            if c == '\'' {
                out.push(InitialCmdPart::SingleQuotedString(string_of(&buf)));
                assert(out@.map_values(|p: InitialCmdPart| p@) =~= before.push(
                    InitialPartV::Quoted(buf@),
                ));
                buf = Vec::new();
                in_sq = false;
            } else {
                buf.push(c);
            }
            i += 1;
        } else if c == '$' && n - i > 1 && s[i + 1] == '(' {
            flush(&mut out, &buf);
            let ghost mid = out@.map_values(|p: InitialCmdPart| p@);
            out.push(InitialCmdPart::CalculationStart);
            assert(out@.map_values(|p: InitialCmdPart| p@) =~= mid.push(InitialPartV::Open));
            buf = Vec::new();
            levels.push(false);
            i += 2;
        } else if c == '\'' && !top {
            flush(&mut out, &buf);
            buf = Vec::new();
            in_sq = true;
            i += 1;
        } else if c == ')' && !top {
            if levels.len() > 1 {
                flush(&mut out, &buf);
                let ghost mid = out@.map_values(|p: InitialCmdPart| p@);
                out.push(InitialCmdPart::CalculationEnd);
                assert(out@.map_values(|p: InitialCmdPart| p@) =~= mid.push(InitialPartV::Close));
                buf = Vec::new();
                levels.pop();
                i += 1;
            } else {
                return Err(syntax_error_of(input, INITIAL_PASS));
            }
        } else if c == '"' {
            let last = levels.len() - 1;
            let ghost lv = levels@;
            levels.set(last, !top);
            assert(levels@ =~= lv.drop_last().push(!lv.last()));
            buf.push(c);
            i += 1;
        } else {
            buf.push(c);
            i += 1;
        }
    }
    if in_sq || levels.len() != 1 || levels[0] {
        return Err(syntax_error_of(input, INITIAL_PASS));
    }
    flush(&mut out, &buf);
    Ok(InitialCmd { parts: out })
}

} // verus!
