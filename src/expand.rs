//! The expander: splices the output of each command substitution, innermost
//! first, into the surrounding text, then runs the second and third passes.
//!
//! Running a substitution's command is outside work, so expansion is a state
//! machine: `step` hands out the next command to run, and `resume` takes back
//! what it printed.

use vstd::prelude::*;
use crate::errors::{syntax_error, ParseError, COMMAND_PASS, REPLACEMENTS_PASS};
use crate::grammar::{command_spec, parse_command};
use crate::initial::{balanced, depth, parse_initial_cmd, initial_spec, is_comment};
use crate::replacements::{perform_replacements, replacement_parts, resolve};
use crate::state::State;
use crate::text::{chars_of, replace_all, replaced, string_of, push_char, push_string};
use crate::types::{Cmd, CmdTypeV, InitialCmd, InitialCmdPart, InitialPartV};

verus! {

/// The text after the second pass, or nothing when it fails.
pub open spec fn resolved_text(text: Seq<char>, state: &State) -> Option<Seq<char>> {
    match replacement_parts(text, 0) {
        None => None,
        Some(p) => Some(resolve(p, state)),
    }
}

/// `r` is what the second and third passes give for `text`.
pub open spec fn evaluation_result(text: Seq<char>, state: &State, r: Result<Cmd, ParseError>) -> bool {
    match resolved_text(text, state) {
        None => r is Err && syntax_error(r->Err_0, text, REPLACEMENTS_PASS@),
        Some(t) => match command_spec(t) {
            Some(c) => r is Ok && r->Ok_0@ == c,
            None => r is Err && syntax_error(r->Err_0, t, COMMAND_PASS@),
        },
    }
}

/// The second and third passes: substitutes words and variables, then
/// parses the resulting text into a command.
pub fn evaluate_cmd(text: &String, state: &State) -> (r: Result<Cmd, ParseError>)
    ensures
        evaluation_result(text@, state, r),
{
    let replaced = perform_replacements(text, state)?;
    parse_command(&replaced)
}

/// A command's output as spliced into text: one trailing newline dropped,
/// every other newline turned into a space.
pub open spec fn flattened(out: Seq<char>) -> Seq<char> {
    let t = if out.len() > 0 && out.last() == '\n' {
        out.drop_last()
    } else {
        out
    };
    replaced(t, seq!['\n'], seq![' '])
}

/// Flattens a captured output for splicing.
pub fn flatten_output(out: &String) -> (r: String)
    ensures
        r@ == flattened(out@),
{
    let mut c = chars_of(out.as_str());
    if c.len() > 0 && c[c.len() - 1] == '\n' {
        c.pop();
    }
    let nl = vec!['\n'];
    let sp = vec![' '];
    assert(nl@ =~= seq!['\n']);
    assert(sp@ =~= seq![' ']);
    let r = replace_all(&c, &nl, &sp);
    string_of(&r)
}

/// Single-quoted text as it is spliced: in its quotes, so that later passes
/// take it as one literal.
pub open spec fn quoted(t: Seq<char>) -> Seq<char> {
    seq!['\''] + t + seq!['\'']
}

/// `x` added to the innermost text of the stack.
pub open spec fn add_top(st: Seq<Seq<char>>, x: Seq<char>) -> Seq<Seq<char>> {
    if st.len() == 0 {
        st
    } else {
        st.update(st.len() - 1, st.last() + x)
    }
}

/// After the first `n` parts, given the outputs of the substitutions in the
/// order they ran: the text gathered at each open level (outermost first),
/// and the command text of each substitution closed so far, in order.
pub open spec fn gather(parts: Seq<InitialPartV>, n: int, outs: Seq<Seq<char>>) -> (
    Seq<Seq<char>>,
    Seq<Seq<char>>,
)
    decreases n,
{
    if n <= 0 || n > parts.len() {
        (seq![Seq::empty()], Seq::empty())
    } else {
        let (st, rq) = gather(parts, n - 1, outs);
        match parts[n - 1] {
            InitialPartV::Text(t) => (add_top(st, t), rq),
            InitialPartV::Quoted(t) => (add_top(st, quoted(t)), rq),
            InitialPartV::Open => (st.push(Seq::empty()), rq),
            InitialPartV::Close => {
                let k = rq.len();
                let rest = st.drop_last();
                (
                    if k < outs.len() {
                        add_top(rest, flattened(outs[k as int]))
                    } else {
                        rest
                    },
                    rq.push(st.last()),
                )
            },
        }
    }
}

proof fn lemma_gather_shape(parts: Seq<InitialPartV>, n: int, outs: Seq<Seq<char>>)
    requires
        0 <= n <= parts.len(),
        forall|m: int| 0 <= m <= parts.len() ==> depth(parts, m) >= 0,
    ensures
        gather(parts, n, outs).0.len() == depth(parts, n) + 1,
    decreases n,
{
    if n > 0 {
        lemma_gather_shape(parts, n - 1, outs);
        assert(depth(parts, n) >= 0);
    }
}

proof fn lemma_gather_ext(
    parts: Seq<InitialPartV>,
    m: int,
    outs: Seq<Seq<char>>,
    outs2: Seq<Seq<char>>,
)
    requires
        0 <= m <= parts.len(),
        outs.len() <= outs2.len(),
        forall|i: int| 0 <= i < outs.len() ==> outs2[i] == outs[i],
        gather(parts, m, outs).1.len() <= outs.len(),
    ensures
        gather(parts, m, outs2) == gather(parts, m, outs),
    decreases m,
{
    if m > 0 {
        assert(gather(parts, m - 1, outs).1.len() <= gather(parts, m, outs).1.len());
        lemma_gather_ext(parts, m - 1, outs, outs2);
    }
}

/// What follows a step of the expansion.
#[derive(Debug)]
pub enum Step {
    /// The command of the next substitution: run it, capturing its output,
    /// and hand the output to `resume`.
    Run(Cmd),
    /// Every substitution ran: the command of the whole line.
    Done(Cmd),
    /// A substitution's or the line's text did not parse.
    Failed(ParseError),
}

/// An expansion in progress over the parts of the first pass.
pub struct Expansion {
    parts: Vec<InitialCmdPart>,
    next: usize,
    texts: Vec<String>,
    waiting: bool,
    finished: bool,
    outputs: Ghost<Seq<Seq<char>>>,
}

impl Expansion {
    /// The parts of the first pass.
    pub closed spec fn parts(&self) -> Seq<InitialPartV> {
        self.parts@.map_values(|p: InitialCmdPart| p@)
    }

    /// The outputs handed back so far, in order.
    pub closed spec fn outputs(&self) -> Seq<Seq<char>> {
        self.outputs@
    }

    /// How many parts were taken.
    pub closed spec fn taken(&self) -> int {
        self.next as int
    }

    /// A substitution's command was handed out and its output is awaited.
    pub closed spec fn is_waiting(&self) -> bool {
        self.waiting
    }

    /// The whole line was handed out, or a text failed to parse.
    pub closed spec fn is_finished(&self) -> bool {
        self.finished
    }

    pub closed spec fn wf(&self) -> bool {
        let (st, rq) = gather(self.parts(), self.next as int, self.outputs@);
        &&& balanced(self.parts())
        &&& self.next <= self.parts@.len()
        &&& self.texts@.map_values(|t: String| t@) == st
        &&& rq.len() == self.outputs@.len() + if self.waiting {
            1int
        } else {
            0int
        }
        &&& self.waiting ==> self.next > 0 && self.parts()[self.next - 1] is Close
    }

    /// The command texts of the substitutions handed out so far, in order.
    pub open spec fn requests(&self) -> Seq<Seq<char>> {
        gather(self.parts(), self.taken(), self.outputs()).1
    }

    /// The text of the whole line once every part was taken.
    pub open spec fn line_text(&self) -> Seq<char> {
        gather(self.parts(), self.taken(), self.outputs()).0[0]
    }

    /// Starts expanding the parts of a line.
    pub fn new(cmd: InitialCmd) -> (r: Expansion)
        requires
            balanced(cmd@),
        ensures
            r.wf(),
            r.parts() == cmd@,
            r.taken() == 0,
            r.outputs().len() == 0,
            !r.is_waiting(),
            !r.is_finished(),
    {
        let r = Expansion {
            parts: cmd.parts,
            next: 0,
            texts: vec![String::new()],
            waiting: false,
            finished: false,
            outputs: Ghost(Seq::empty()),
        };
        assert(r.texts@.map_values(|t: String| t@) =~= seq![Seq::<char>::empty()]);
        r
    }

    fn add_to_top(&mut self, x: &String)
        requires
            old(self).texts@.len() > 0,
        ensures
            final(self).texts@.map_values(|t: String| t@) == add_top(
                old(self).texts@.map_values(|t: String| t@),
                x@,
            ),
            final(self).parts == old(self).parts,
            final(self).next == old(self).next,
            final(self).waiting == old(self).waiting,
            final(self).finished == old(self).finished,
            final(self).outputs == old(self).outputs,
    {
        let ghost before = self.texts@.map_values(|t: String| t@);
        let last = self.texts.len() - 1;
        let mut top = self.texts.pop().unwrap();
        push_string(&mut top, x);
        self.texts.push(top);
        assert(self.texts@.map_values(|t: String| t@) =~= add_top(before, x@));
    }

    /// Takes parts up to the end of the next substitution, or to the end of
    /// the line, and hands out the command that the text gathered there
    /// parses to.
    pub fn step(&mut self, state: &State) -> (r: Step)
        requires
            old(self).wf(),
            !old(self).is_waiting(),
            !old(self).is_finished(),
        ensures
            final(self).wf(),
            final(self).parts() == old(self).parts(),
            final(self).outputs() == old(self).outputs(),
            match r {
                Step::Run(c) => {
                    let k = old(self).outputs().len() as int;
                    &&& final(self).is_waiting()
                    &&& !final(self).is_finished()
                    &&& final(self).requests().len() == k + 1
                    &&& evaluation_result(final(self).requests()[k], state, Ok(c))
                },
                Step::Failed(e) => {
                    let k = old(self).outputs().len() as int;
                    &&& final(self).is_finished()
                    &&& if final(self).is_waiting() {
                        &&& final(self).requests().len() == k + 1
                        &&& evaluation_result(final(self).requests()[k], state, Err(e))
                    } else {
                        &&& final(self).taken() == final(self).parts().len()
                        &&& final(self).requests().len() == k
                        &&& evaluation_result(final(self).line_text(), state, Err(e))
                    }
                },
                Step::Done(c) => {
                    &&& final(self).is_finished()
                    &&& !final(self).is_waiting()
                    &&& final(self).taken() == final(self).parts().len()
                    &&& final(self).requests().len() == old(self).outputs().len()
                    &&& evaluation_result(final(self).line_text(), state, Ok(c))
                },
            },
    {
        let n = self.parts.len();
        while self.next < n
            invariant
                self.wf(),
                !self.waiting,
                !self.finished,
                n == self.parts@.len(),
                self.parts() == old(self).parts(),
                self.outputs() == old(self).outputs(),
            decreases n - self.next,
        {
            proof {
                lemma_gather_shape(self.parts(), self.next as int, self.outputs@);
            }
            let ghost parts = self.parts();
            let i = self.next;
            assert(parts[i as int] == self.parts@[i as int]@);
            match &self.parts[i] {
                InitialCmdPart::String(t) => {
                    let t = t.clone();
                    self.add_to_top(&t);
                    self.next = i + 1;
                },
                InitialCmdPart::SingleQuotedString(t) => {
                    let mut q = String::new();
                    push_char(&mut q, '\'');
                    push_string(&mut q, t);
                    push_char(&mut q, '\'');
                    assert(q@ =~= quoted(t@));
                    self.add_to_top(&q);
                    self.next = i + 1;
                },
                InitialCmdPart::CalculationStart => {
                    let ghost before = self.texts@.map_values(|t: String| t@);
                    self.texts.push(String::new());
                    assert(self.texts@.map_values(|t: String| t@) =~= before.push(Seq::empty()));
                    self.next = i + 1;
                },
                InitialCmdPart::CalculationEnd => {
                    let ghost before = self.texts@.map_values(|t: String| t@);
                    assert(depth(parts, i + 1) >= 0);
                    let inner = self.texts.pop().unwrap();
                    assert(self.texts@.map_values(|t: String| t@) =~= before.drop_last());
                    self.next = i + 1;
                    self.waiting = true;
                    return match evaluate_cmd(&inner, state) {
                        Ok(c) => Step::Run(c),
                        Err(e) => {
                            self.finished = true;
                            Step::Failed(e)
                        },
                    };
                },
            }
        }
        proof {
            lemma_gather_shape(self.parts(), self.next as int, self.outputs@);
        }
        self.finished = true;
        match evaluate_cmd(&self.texts[0], state) {
            Ok(c) => Step::Done(c),
            Err(e) => Step::Failed(e),
        }
    }

    /// Hands back what the substitution's command printed; it is spliced,
    /// flattened, into the enclosing text.
    pub fn resume(&mut self, output: &String)
        requires
            old(self).wf(),
            old(self).is_waiting(),
            !old(self).is_finished(),
        ensures
            final(self).wf(),
            !final(self).is_waiting(),
            !final(self).is_finished(),
            final(self).parts() == old(self).parts(),
            final(self).taken() == old(self).taken(),
            final(self).outputs() == old(self).outputs().push(output@),
            final(self).requests() == old(self).requests(),
    {
        let flat = flatten_output(output);
        proof {
            let parts = self.parts();
            let n = self.next as int;
            lemma_gather_shape(parts, n, self.outputs@);
            let outs = self.outputs@;
            assert(gather(parts, n - 1, outs).1.len() == outs.len());
            lemma_gather_ext(parts, n - 1, outs, outs.push(output@));
        }
        self.add_to_top(&flat);
        self.outputs = Ghost(self.outputs@.push(output@));
        self.waiting = false;
    }
}


/// The parts of `d` substitutions nested in one another, each preceded by
/// the text `p`, around the innermost text `inner`: for `d` = 2, the parts
/// of `p $(p $(inner))` with `p` standing for its text.
pub open spec fn nested_parts(p: Seq<char>, inner: Seq<char>, d: nat) -> Seq<InitialPartV> {
    Seq::new(
        3 * d + 1,
        |i: int|
            if i < 2 * d {
                if i % 2 == 0 {
                    InitialPartV::Text(p)
                } else {
                    InitialPartV::Open
                }
            } else if i == 2 * d {
                InitialPartV::Text(inner)
            } else {
                InitialPartV::Close
            },
    )
}

/// `j` copies of `p` followed by `last`.
pub open spec fn stack_of(p: Seq<char>, j: nat, last: Seq<char>) -> Seq<Seq<char>> {
    Seq::new(j + 1, |x: int| if x < j { p } else { last })
}

proof fn lemma_nested_open(p: Seq<char>, inner: Seq<char>, d: nat, outs: Seq<Seq<char>>, m: nat)
    requires
        m <= 2 * d,
    ensures
        gather(nested_parts(p, inner, d), m as int, outs) == (
            if m % 2 == 0 {
                stack_of(p, m / 2, Seq::empty())
            } else {
                stack_of(p, m / 2, p)
            },
            Seq::<Seq<char>>::empty(),
        ),
    decreases m,
{
    let parts = nested_parts(p, inner, d);
    if m == 0 {
        assert(stack_of(p, 0, Seq::empty()) =~= seq![Seq::<char>::empty()]);
    } else {
        lemma_nested_open(p, inner, d, outs, (m - 1) as nat);
        let st = gather(parts, m - 1, outs).0;
        if m % 2 == 1 {
            assert(parts[m - 1] == InitialPartV::Text(p));
            assert(add_top(st, p) =~= stack_of(p, m / 2, p));
        } else {
            assert(parts[m - 1] == InitialPartV::Open);
            assert(st.push(Seq::empty()) =~= stack_of(p, m / 2, Seq::empty()));
        }
    }
}

proof fn lemma_nested_close(p: Seq<char>, inner: Seq<char>, d: nat, outs: Seq<Seq<char>>, k: nat)
    requires
        k <= d,
        outs.len() >= d,
    ensures
        gather(nested_parts(p, inner, d), (2 * d + 1 + k) as int, outs) == (
            if k == 0 {
                stack_of(p, d, inner)
            } else {
                stack_of(p, (d - k) as nat, p + flattened(outs[k - 1]))
            },
            Seq::new(k, |x: int| if x == 0 { inner } else { p + flattened(outs[x - 1]) }),
        ),
    decreases k,
{
    let parts = nested_parts(p, inner, d);
    if k == 0 {
        lemma_nested_open(p, inner, d, outs, 2 * d);
        assert(parts[2 * d as int] == InitialPartV::Text(inner));
        assert(add_top(stack_of(p, d, Seq::empty()), inner) =~= stack_of(p, d, inner));
        assert(Seq::new(0, |x: int| if x == 0 { inner } else { p + flattened(outs[x - 1]) })
            =~= Seq::<Seq<char>>::empty());
    } else {
        lemma_nested_close(p, inner, d, outs, (k - 1) as nat);
        let n = 2 * d + 1 + k;
        assert(parts[n - 1] == InitialPartV::Close);
        let (st, rq) = gather(parts, n - 1, outs);
        let top = if k == 1 {
            inner
        } else {
            p + flattened(outs[k - 2])
        };
        assert(st == stack_of(p, (d - (k - 1)) as nat, top));
        assert(rq.len() == k - 1);
        assert(st.last() == top);
        assert(add_top(st.drop_last(), flattened(outs[k - 1])) =~= stack_of(
            p,
            (d - k) as nat,
            p + flattened(outs[k - 1]),
        ));
        assert(rq.push(st.last()) =~= Seq::new(
            k,
            |x: int|
                if x == 0 {
                    inner
                } else {
                    p + flattened(outs[x - 1])
                },
        ));
    }
}

/// Nested substitutions run innermost first: with `d` levels of `p $(...)`
/// around `inner`, the first command handed out is `inner`, each later one
/// is `p` followed by the flattened output of the one before, and the
/// line's text is `p` followed by the flattened output of the outermost.
pub proof fn lemma_innermost_first(p: Seq<char>, inner: Seq<char>, d: nat, outs: Seq<Seq<char>>)
    requires
        d >= 1,
        outs.len() == d,
    ensures
        ({
            let (st, rq) = gather(nested_parts(p, inner, d), (3 * d + 1) as int, outs);
            &&& balanced(nested_parts(p, inner, d))
            &&& rq.len() == d
            &&& rq[0] == inner
            &&& forall|k: int| 1 <= k < d ==> rq[k] == p + flattened(outs[k - 1])
            &&& st == seq![p + flattened(outs[d - 1])]
        }),
{
    lemma_nested_close(p, inner, d, outs, d);
    assert(stack_of(p, 0, p + flattened(outs[d - 1])) =~= seq![p + flattened(outs[d - 1])]);
    lemma_nested_balanced(p, inner, d);
}

proof fn lemma_nested_depth(p: Seq<char>, inner: Seq<char>, d: nat, m: nat)
    requires
        m <= 3 * d + 1,
    ensures
        depth(nested_parts(p, inner, d), m as int) == if m <= 2 * d {
            (m / 2) as int
        } else {
            d - (m - 2 * d - 1)
        },
    decreases m,
{
    if m > 0 {
        lemma_nested_depth(p, inner, d, (m - 1) as nat);
    }
}

proof fn lemma_nested_balanced(p: Seq<char>, inner: Seq<char>, d: nat)
    ensures
        balanced(nested_parts(p, inner, d)),
{
    let parts = nested_parts(p, inner, d);
    assert forall|n: int| 0 <= n <= parts.len() implies depth(parts, n) >= 0 by {
        lemma_nested_depth(p, inner, d, n as nat);
    }
    lemma_nested_depth(p, inner, d, 3 * d + 1);
}

/// The line holds nothing but whitespace.
pub open spec fn is_blank(s: Seq<char>) -> bool {
    crate::replacements::space_len(s, 0) == s.len()
}

/// Starts processing a line: `InputEmpty` for a blank line, `Comment` for a
/// comment line, a syntax error when the first pass fails, else the
/// expansion of the line, to be driven by `Expansion::step`.
pub fn parse_input(input: &String) -> (r: Result<Expansion, ParseError>)
    ensures
        is_blank(input@) ==> r is Err && r->Err_0 is InputEmpty,
        !is_blank(input@) && is_comment(input@) ==> r is Err && r->Err_0 is Comment,
        !is_blank(input@) && !is_comment(input@) ==> match initial_spec(input@) {
            Some(p) => r is Ok && {
                let e = r->Ok_0;
                &&& e.wf()
                &&& e.parts() == p
                &&& e.taken() == 0
                &&& e.outputs().len() == 0
                &&& !e.is_waiting()
                &&& !e.is_finished()
            },
            None => r is Err && syntax_error(r->Err_0, input@, crate::errors::INITIAL_PASS@),
        },
{
    let s = chars_of(input.as_str());
    let mut j: usize = 0;
    while j < s.len() && crate::text::space(s[j])
        invariant
            j <= s@.len(),
            s@ == input@,
            crate::replacements::space_len(s@, 0) == j + crate::replacements::space_len(
                s@,
                j as int,
            ),
        decreases s@.len() - j,
    {
        j += 1;
    }
    if j == s.len() {
        return Err(ParseError::InputEmpty);
    }
    let initial = parse_initial_cmd(input)?;
    Ok(Expansion::new(initial))
}

} // verus!
