//! The second pass: splitting substituted text into literals, words and
//! variable references, and resolving each of them against the state.

use vstd::prelude::*;
use crate::errors::{syntax_error, syntax_error_of, ParseError, REPLACEMENTS_PASS};
use crate::state::{var_value, read_var, State};
use crate::text::{
    chars_of, is_name_char, is_space, name_char, push_string, replace_all, replaced, space,
    string_of, lemma_replaced_absent, lemma_replaced_char_absent, lemma_replaced_char_gone, occurs_at,
    occurs,
};
use crate::types::{ReplacementPart, ReplacementPartV, ReplacementsCmd};

verus! {

/// The marker that stands for the home directory in a word.
pub open spec fn home_marker() -> Seq<char> {
    seq!['~']
}

pub open spec fn is_quote(c: char) -> bool {
    c == '"' || c == '\''
}

/// A variable reference starts at `i`: `$` followed by a name character.
pub open spec fn starts_var(s: Seq<char>, i: int) -> bool {
    0 <= i && i + 1 < s.len() && s[i] == '$' && is_name_char(s[i + 1])
}

/// The character at `i` continues a word.
pub open spec fn continues_word(s: Seq<char>, i: int) -> bool {
    !is_space(s[i]) && !is_quote(s[i]) && !starts_var(s, i)
}

/// How many whitespace characters start at `i`.
pub open spec fn space_len(s: Seq<char>, i: int) -> nat
    decreases s.len() - i,
{
    if 0 <= i < s.len() && is_space(s[i]) {
        1 + space_len(s, i + 1)
    } else {
        0
    }
}

/// How many name characters start at `i`.
pub open spec fn name_len(s: Seq<char>, i: int) -> nat
    decreases s.len() - i,
{
    if 0 <= i < s.len() && is_name_char(s[i]) {
        1 + name_len(s, i + 1)
    } else {
        0
    }
}

/// How many characters that continue a word start at `i`.
pub open spec fn word_len(s: Seq<char>, i: int) -> nat
    decreases s.len() - i,
{
    if 0 <= i < s.len() && continues_word(s, i) {
        1 + word_len(s, i + 1)
    } else {
        0
    }
}

/// How many characters other than `q` start at `i`.
pub open spec fn until_len(s: Seq<char>, i: int, q: char) -> nat
    decreases s.len() - i,
{
    if 0 <= i < s.len() && s[i] != q {
        1 + until_len(s, i + 1, q)
    } else {
        0
    }
}

/// The parts of `s` from position `i` on, or nothing when a quote is left
/// open. Whitespace runs and quoted regions (quotes kept) are literals; `$`
/// and a run of name characters is a variable; any other run is a word.
pub open spec fn replacement_parts(s: Seq<char>, i: int) -> Option<Seq<ReplacementPartV>>
    decreases s.len() - i via replacement_parts_decreases
{
    if i < 0 || i >= s.len() {
        Some(Seq::empty())
    } else if is_space(s[i]) {
        let j = i + 1 + space_len(s, i + 1);
        prepend(ReplacementPartV::Literal(s.subrange(i, j)), replacement_parts(s, j))
    } else if is_quote(s[i]) {
        let j = i + 1 + until_len(s, i + 1, s[i]);
        if j >= s.len() {
            None
        } else {
            prepend(ReplacementPartV::Literal(s.subrange(i, j + 1)), replacement_parts(s, j + 1))
        }
    } else if starts_var(s, i) {
        let j = i + 1 + name_len(s, i + 1);
        prepend(ReplacementPartV::Variable(s.subrange(i + 1, j)), replacement_parts(s, j))
    } else {
        let j = i + 1 + word_len(s, i + 1);
        prepend(ReplacementPartV::Word(s.subrange(i, j)), replacement_parts(s, j))
    }
}

proof fn lemma_space_len(s: Seq<char>, i: int)
    requires
        0 <= i <= s.len(),
    ensures
        i + space_len(s, i) <= s.len(),
    decreases s.len() - i,
{
    if i < s.len() {
        lemma_space_len(s, i + 1);
    }
}

proof fn lemma_name_len(s: Seq<char>, i: int)
    requires
        0 <= i <= s.len(),
    ensures
        i + name_len(s, i) <= s.len(),
    decreases s.len() - i,
{
    if i < s.len() {
        lemma_name_len(s, i + 1);
    }
}

proof fn lemma_word_len(s: Seq<char>, i: int)
    requires
        0 <= i <= s.len(),
    ensures
        i + word_len(s, i) <= s.len(),
    decreases s.len() - i,
{
    if i < s.len() {
        lemma_word_len(s, i + 1);
    }
}

#[via_fn]
proof fn replacement_parts_decreases(s: Seq<char>, i: int) {
    if 0 <= i < s.len() {
        lemma_space_len(s, i + 1);
        lemma_name_len(s, i + 1);
        lemma_word_len(s, i + 1);
    }
}

/// The text a part stands for.
pub open spec fn part_source(p: ReplacementPartV) -> Seq<char> {
    match p {
        ReplacementPartV::Literal(t) => t,
        ReplacementPartV::Word(w) => w,
        ReplacementPartV::Variable(v) => seq!['$'] + v,
    }
}

/// The text that the parts stand for, in order.
pub open spec fn parts_source(parts: Seq<ReplacementPartV>) -> Seq<char>
    decreases parts.len(),
{
    if parts.len() == 0 {
        Seq::empty()
    } else {
        part_source(parts[0]) + parts_source(parts.drop_first())
    }
}

pub(crate) proof fn lemma_until_len_bound(s: Seq<char>, i: int, q: char)
    requires
        0 <= i <= s.len(),
    ensures
        i + until_len(s, i, q) <= s.len(),
    decreases s.len() - i,
{
    if i < s.len() {
        lemma_until_len_bound(s, i + 1, q);
    }
}

proof fn lemma_parts_source(s: Seq<char>, i: int)
    requires
        0 <= i <= s.len(),
    ensures
        replacement_parts(s, i) matches Some(r) ==> parts_source(r) == s.skip(i),
    decreases s.len() - i,
{
    if i == s.len() {
        assert(s.skip(i) =~= Seq::<char>::empty());
    } else {
        let j: int = if is_space(s[i]) {
            lemma_space_len(s, i + 1);
            i + 1 + space_len(s, i + 1)
        } else if is_quote(s[i]) {
            lemma_until_len_bound(s, i + 1, s[i]);
            let k = i + 1 + until_len(s, i + 1, s[i]);
            if k >= s.len() {
                i
            } else {
                k + 1
            }
        } else if starts_var(s, i) {
            lemma_name_len(s, i + 1);
            i + 1 + name_len(s, i + 1)
        } else {
            lemma_word_len(s, i + 1);
            i + 1 + word_len(s, i + 1)
        };
        if j > i {
            lemma_parts_source(s, j);
            assert(s.skip(i) =~= s.subrange(i, j) + s.skip(j));
            if starts_var(s, i) && !is_space(s[i]) && !is_quote(s[i]) {
                assert(seq!['$'] + s.subrange(i + 1, j) =~= s.subrange(i, j));
            }
            match replacement_parts(s, i) {
                None => {},
                Some(r) => {
                    assert(r.drop_first() == replacement_parts(s, j)->0);
                },
            }
        }
    }
}

/// The second pass keeps every character: its parts stand for exactly the
/// text it was given.
pub proof fn lemma_replacements_keep_text(s: Seq<char>)
    ensures
        replacement_parts(s, 0) matches Some(r) ==> parts_source(r) == s,
{
    lemma_parts_source(s, 0);
    assert(s.skip(0) =~= s);
}

/// `p` in front of the parts `rest`, when there are any.
pub open spec fn prepend<A>(p: A, rest: Option<Seq<A>>) -> Option<Seq<A>> {
    match rest {
        None => None,
        Some(r) => Some(seq![p] + r),
    }
}

fn space_end(s: &Vec<char>, i: usize) -> (j: usize)
    requires
        i <= s@.len(),
    ensures
        j == i + space_len(s@, i as int),
        j <= s@.len(),
{
    let mut j = i;
    while j < s.len() && space(s[j])
        invariant
            i <= j <= s@.len(),
            i + space_len(s@, i as int) == j + space_len(s@, j as int),
        decreases s@.len() - j,
    {
        j += 1;
    }
    j
}

pub(crate) fn name_end(s: &Vec<char>, i: usize) -> (j: usize)
    requires
        i <= s@.len(),
    ensures
        j == i + name_len(s@, i as int),
        j <= s@.len(),
{
    let mut j = i;
    while j < s.len() && name_char(s[j])
        invariant
            i <= j <= s@.len(),
            i + name_len(s@, i as int) == j + name_len(s@, j as int),
        decreases s@.len() - j,
    {
        j += 1;
    }
    j
}

fn var_starts(s: &Vec<char>, i: usize) -> (r: bool)
    requires
        i < s@.len(),
    ensures
        r == starts_var(s@, i as int),
{
    s[i] == '$' && s.len() - i > 1 && name_char(s[i + 1])
}

fn word_end(s: &Vec<char>, i: usize) -> (j: usize)
    requires
        i <= s@.len(),
    ensures
        j == i + word_len(s@, i as int),
        j <= s@.len(),
{
    let mut j = i;
    while j < s.len() && !space(s[j]) && s[j] != '"' && s[j] != '\'' && !var_starts(s, j)
        invariant
            i <= j <= s@.len(),
            i + word_len(s@, i as int) == j + word_len(s@, j as int),
        decreases s@.len() - j,
    {
        j += 1;
    }
    j
}

pub(crate) fn until_end(s: &Vec<char>, i: usize, q: char) -> (j: usize)
    requires
        i <= s@.len(),
    ensures
        j == i + until_len(s@, i as int, q),
        j <= s@.len(),
{
    let mut j = i;
    while j < s.len() && s[j] != q
        invariant
            i <= j <= s@.len(),
            i + until_len(s@, i as int, q) == j + until_len(s@, j as int, q),
        decreases s@.len() - j,
    {
        j += 1;
    }
    j
}

pub(crate) fn sub_string(s: &Vec<char>, from: usize, to: usize) -> (r: String)
    requires
        from <= to <= s@.len(),
    ensures
        r@ == s@.subrange(from as int, to as int),
{
    let mut r = String::new();
    crate::text::push_chars(&mut r, s, from, to);
    r
}

/// The second pass over `input`.
pub fn parse_replacements(input: &String) -> (r: Result<ReplacementsCmd, ParseError>)
    ensures
        match replacement_parts(input@, 0) {
            Some(p) => r is Ok && r->Ok_0@ == p,
            None => r is Err && syntax_error(r->Err_0, input@, REPLACEMENTS_PASS@),
        },
{
    let s = chars_of(input.as_str());
    let n = s.len();
    let mut parts: Vec<ReplacementPart> = Vec::new();
    let mut i: usize = 0;
    while i < n
        invariant
            n == s@.len(),
            s@ == input@,
            i <= n,
            replacement_parts(s@, 0) == match replacement_parts(s@, i as int) {
                None => None,
                Some(rest) => Some(parts@.map_values(|p: ReplacementPart| p@) + rest),
            },
        decreases n - i,
    {
        let ghost before = parts@.map_values(|p: ReplacementPart| p@);
        let c = s[i];
        let j: usize;
        if space(c) {
            j = space_end(&s, i + 1);
            parts.push(ReplacementPart::String(sub_string(&s, i, j)));
        } else if c == '"' || c == '\'' {
            let k = until_end(&s, i + 1, c);
            if k >= n {
                return Err(syntax_error_of(input, REPLACEMENTS_PASS));
            }
            j = k + 1;
            parts.push(ReplacementPart::String(sub_string(&s, i, j)));
        } else if var_starts(&s, i) {
            j = name_end(&s, i + 1);
            parts.push(ReplacementPart::Variable(sub_string(&s, i + 1, j)));
        } else {
            j = word_end(&s, i + 1);
            parts.push(ReplacementPart::Word(sub_string(&s, i, j)));
        }
        assert(parts@.map_values(|p: ReplacementPart| p@) =~= before.push(
            parts@.last()@,
        ));
        i = j;
        proof {
            let now = parts@.map_values(|p: ReplacementPart| p@);
            match replacement_parts(s@, i as int) {
                None => {},
                Some(rest) => {
                    assert(now + rest =~= before + (seq![now.last()] + rest));
                },
            }
        }
    }
    assert(parts@.map_values(|p: ReplacementPart| p@) + Seq::empty() =~= parts@.map_values(
        |p: ReplacementPart| p@,
    ));
    Ok(ReplacementsCmd { parts })
}

/// Every alias of the table applied in turn to `w`, each as a literal
/// substring replacement.
pub open spec fn apply_aliases(al: Seq<(Seq<char>, Seq<char>)>, w: Seq<char>) -> Seq<char>
    decreases al.len(),
{
    if al.len() == 0 {
        w
    } else {
        replaced(apply_aliases(al.drop_last(), w), al.last().0, al.last().1)
    }
}

/// A word after alias replacement and then home-marker expansion.
pub open spec fn expand_word(state: &State, w: Seq<char>) -> Seq<char> {
    replaced(apply_aliases(state.alias_entries(), w), home_marker(), state.home@)
}

/// What the parts resolve to: literals as they are, words expanded,
/// variables read.
pub open spec fn resolve(parts: Seq<ReplacementPartV>, state: &State) -> Seq<char>
    decreases parts.len(),
{
    if parts.len() == 0 {
        Seq::empty()
    } else {
        resolve(parts.drop_last(), state) + match parts.last() {
            ReplacementPartV::Literal(t) => t,
            ReplacementPartV::Word(w) => expand_word(state, w),
            ReplacementPartV::Variable(v) => var_value(state, v),
        }
    }
}

/// Applies the aliases, then expands the home marker, in a word.
pub fn perform_replacement(word: &String, state: &State) -> (r: String)
    ensures
        r@ == expand_word(state, word@),
{
    let mut cur = chars_of(word.as_str());
    let mut i: usize = 0;
    while i < state.aliases.len()
        invariant
            i <= state.aliases@.len(),
            cur@ == apply_aliases(state.alias_entries().take(i as int), word@),
        decreases state.aliases@.len() - i,
    {
        let pat = chars_of(state.aliases[i].0.as_str());
        let rep = chars_of(state.aliases[i].1.as_str());
        cur = replace_all(&cur, &pat, &rep);
        assert(state.alias_entries().take(i + 1).drop_last() =~= state.alias_entries().take(
            i as int,
        ));
        i += 1;
    }
    assert(state.alias_entries().take(i as int) =~= state.alias_entries());
    let marker = vec!['~'];
    let home = chars_of(state.home.as_str());
    assert(marker@ =~= home_marker());
    let out = replace_all(&cur, &marker, &home);
    string_of(&out)
}

/// Resolves the parts of the second pass into text.
pub fn handle_replaced_cmd(replacement_cmd: &ReplacementsCmd, state: &State) -> (r: String)
    ensures
        r@ == resolve(replacement_cmd@, state),
{
    let mut out = String::new();
    let mut i: usize = 0;
    while i < replacement_cmd.parts.len()
        invariant
            i <= replacement_cmd.parts@.len(),
            out@ == resolve(replacement_cmd@.take(i as int), state),
        decreases replacement_cmd.parts@.len() - i,
    {
        let val = match &replacement_cmd.parts[i] {
            ReplacementPart::String(t) => t.clone(),
            ReplacementPart::Word(w) => perform_replacement(w, state),
            ReplacementPart::Variable(v) => read_var(v, state),
        };
        push_string(&mut out, &val);
        assert(replacement_cmd@.take(i + 1).drop_last() =~= replacement_cmd@.take(i as int));
        i += 1;
    }
    assert(replacement_cmd@.take(i as int) =~= replacement_cmd@);
    out
}

/// The second pass and its resolution: the text with its words and
/// variables replaced, or a syntax error for an open quote.
pub fn perform_replacements(text: &String, state: &State) -> (r: Result<String, ParseError>)
    ensures
        match replacement_parts(text@, 0) {
            Some(p) => r is Ok && r->Ok_0@ == resolve(p, state),
            None => r is Err && syntax_error(r->Err_0, text@, REPLACEMENTS_PASS@),
        },
{
    let parts = parse_replacements(text)?;
    Ok(handle_replaced_cmd(&parts, state))
}

/// A path with each occurrence of the home path abbreviated to the home
/// marker, as the prompt shows it.
pub fn abbreviate_home(path: &String, home: &String) -> (r: String)
    ensures
        r@ == replaced(path@, home@, home_marker()),
{
    let p = chars_of(path.as_str());
    let h = chars_of(home.as_str());
    let marker = vec!['~'];
    assert(marker@ =~= home_marker());
    let out = replace_all(&p, &h, &marker);
    string_of(&out)
}

/// Expanding the home marker alone yields the home path; and where the
/// home path holds no marker, a second expansion changes nothing.
pub proof fn lemma_home_expansion(home: Seq<char>, w: Seq<char>)
    requires
        !home.contains('~'),
    ensures
        replaced(home_marker(), home_marker(), home) == home,
        replaced(replaced(w, home_marker(), home), home_marker(), home) == replaced(
            w,
            home_marker(),
            home,
        ),
{
    let m = home_marker();
    assert(m.take(1) =~= m);
    assert(m.skip(1) =~= Seq::<char>::empty());
    assert(replaced(m.skip(1), m, home) == m.skip(1));
    assert(home + Seq::<char>::empty() =~= home);
    lemma_replaced_char_gone(w, '~', home);
    lemma_replaced_char_absent(replaced(w, m, home), '~', home);
}

/// Abbreviating the home path and expanding the marker again gives back a
/// path that held no marker, for a home path that is not empty.
pub proof fn lemma_abbreviation_inverse(path: Seq<char>, home: Seq<char>)
    requires
        home.len() > 0,
        !path.contains('~'),
    ensures
        replaced(replaced(path, home, home_marker()), home_marker(), home) == path,
    decreases path.len(),
{
    let m = home_marker();
    let a = replaced(path, home, m);
    if path.len() < home.len() {
        lemma_replaced_char_absent(path, '~', home);
    } else if path.take(home.len() as int) == home {
        let rest = path.skip(home.len() as int);
        assert(!rest.contains('~')) by {
            if rest.contains('~') {
                let k = choose|k: int| 0 <= k < rest.len() && rest[k] == '~';
                assert(path[k + home.len()] == '~');
            }
        }
        lemma_abbreviation_inverse(rest, home);
        let r = replaced(rest, home, m);
        assert(a == m + r);
        assert((m + r).take(1) =~= m);
        assert((m + r).skip(1) =~= r);
        assert(replaced(a, m, home) == home + replaced(r, m, home));
        assert(home + rest =~= path);
    } else {
        let rest = path.drop_first();
        assert(!rest.contains('~')) by {
            if rest.contains('~') {
                let k = choose|k: int| 0 <= k < rest.len() && rest[k] == '~';
                assert(path[k + 1] == '~');
            }
        }
        lemma_abbreviation_inverse(rest, home);
        let r = replaced(rest, home, m);
        assert(a == seq![path[0]] + r);
        assert((seq![path[0]] + r).take(1) =~= seq![path[0]]);
        assert(seq![path[0]] != m) by {
            assert(seq![path[0]][0] == path[0]);
            assert(path[0] != '~');
        }
        assert((seq![path[0]] + r).drop_first() =~= r);
        assert(replaced(a, m, home) == seq![path[0]] + replaced(r, m, home));
        assert(seq![path[0]] + rest =~= path);
    }
}

/// No key of the table occurs in `t`.
pub open spec fn triggers_no_alias(al: Seq<(Seq<char>, Seq<char>)>, t: Seq<char>) -> bool {
    forall|j: int| 0 <= j < al.len() ==> !occurs(t, #[trigger] al[j].0)
}

/// Text in which no alias key occurs is left as it is by alias replacement.
pub proof fn lemma_aliases_absent(al: Seq<(Seq<char>, Seq<char>)>, t: Seq<char>)
    requires
        forall|j: int| 0 <= j < al.len() ==> al[j].0.len() > 0,
        triggers_no_alias(al, t),
    ensures
        apply_aliases(al, t) == t,
    decreases al.len(),
{
    if al.len() > 0 {
        lemma_aliases_absent(al.drop_last(), t);
        assert(al.last() == al[al.len() - 1]);
        lemma_replaced_absent(t, al.last().0, al.last().1);
    }
}

/// Alias replacement under non-recursive aliases is stable: where no key
/// occurs within another key and no value triggers any key, a word that is exactly the key of entry `k` expands to that
/// entry's value in one pass, and a second pass leaves the result as it is.
pub proof fn lemma_alias_stable(al: Seq<(Seq<char>, Seq<char>)>, k: int)
    requires
        0 <= k < al.len(),
        forall|i: int, j: int|
            0 <= i < al.len() && 0 <= j < al.len() && i != j ==> !occurs(al[i].0, al[j].0),
        forall|i: int| 0 <= i < al.len() ==> triggers_no_alias(al, #[trigger] al[i].1),
    ensures
        apply_aliases(al, al[k].0) == al[k].1,
        apply_aliases(al, apply_aliases(al, al[k].0)) == apply_aliases(al, al[k].0),
{
    assert forall|j: int| 0 <= j < al.len() implies al[j].0.len() > 0 by {
        if al[j].0.len() == 0 {
            assert(triggers_no_alias(al, al[k].1));
            assert(al[k].1.subrange(0, 0) =~= al[j].0);
            assert(occurs_at(al[k].1, al[j].0, 0));
        }
    }
    lemma_alias_prefix(al, k, al.len() as int);
    assert(al.take(al.len() as int) =~= al);
    lemma_aliases_absent(al, al[k].1);
}

proof fn lemma_alias_prefix(al: Seq<(Seq<char>, Seq<char>)>, k: int, n: int)
    requires
        0 <= k < al.len(),
        0 <= n <= al.len(),
        forall|j: int| 0 <= j < al.len() ==> al[j].0.len() > 0,
        forall|i: int, j: int|
            0 <= i < al.len() && 0 <= j < al.len() && i != j ==> !occurs(al[i].0, al[j].0),
        forall|i: int| 0 <= i < al.len() ==> triggers_no_alias(al, #[trigger] al[i].1),
    ensures
        apply_aliases(al.take(n), al[k].0) == if n <= k {
            al[k].0
        } else {
            al[k].1
        },
    decreases n,
{
    if n > 0 {
        let p = al.take(n);
        assert(p.drop_last() =~= al.take(n - 1));
        assert(p.last() == al[n - 1]);
        lemma_alias_prefix(al, k, n - 1);
        let before = apply_aliases(al.take(n - 1), al[k].0);
        if n - 1 < k {
            lemma_replaced_absent(al[k].0, al[n - 1].0, al[n - 1].1);
        } else if n - 1 == k {
            let key = al[k].0;
            assert(key.take(key.len() as int) =~= key);
            assert(key.skip(key.len() as int) =~= Seq::<char>::empty());
            assert(replaced(key.skip(key.len() as int), key, al[k].1) == key.skip(key.len() as int));
            assert(al[k].1 + Seq::<char>::empty() =~= al[k].1);
        } else {
            assert(triggers_no_alias(al, al[k].1));
            assert(!occurs(al[k].1, al[n - 1].0));
            lemma_replaced_absent(al[k].1, al[n - 1].0, al[n - 1].1);
        }
    } else {
        assert(al.take(0).len() == 0);
    }
}

} // verus!
