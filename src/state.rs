//! The session state shared by expansion and the built-ins: aliases,
//! variables, the home directory and the user name.

use vstd::prelude::*;

verus! {

/// A table of names and values, viewed as pairs of character sequences.
pub open spec fn entries(t: Seq<(String, String)>) -> Seq<(Seq<char>, Seq<char>)> {
    t.map_values(|p: (String, String)| (p.0@, p.1@))
}

/// No name stands twice in the table.
pub open spec fn keys_unique(t: Seq<(Seq<char>, Seq<char>)>) -> bool {
    forall|i: int, j: int| 0 <= i < j < t.len() ==> t[i].0 != t[j].0
}

/// The value of the first entry named `k`.
pub open spec fn lookup(t: Seq<(Seq<char>, Seq<char>)>, k: Seq<char>) -> Option<Seq<char>>
    decreases t.len(),
{
    if t.len() == 0 {
        None
    } else if t[0].0 == k {
        Some(t[0].1)
    } else {
        lookup(t.drop_first(), k)
    }
}

/// The table with `k` bound to `v`: the entry named `k` takes the new value
/// in place, or a new entry is added at the end.
pub open spec fn inserted(t: Seq<(Seq<char>, Seq<char>)>, k: Seq<char>, v: Seq<char>) -> Seq<
    (Seq<char>, Seq<char>),
> {
    if exists|i: int| 0 <= i < t.len() && t[i].0 == k {
        let i = choose|i: int| 0 <= i < t.len() && t[i].0 == k;
        t.update(i, (k, v))
    } else {
        t.push((k, v))
    }
}

#[derive(Debug)]
pub struct State {
    pub aliases: Vec<(String, String)>,
    pub username: String,
    pub home: String,
    pub variables: Vec<(String, String)>,
}

impl State {
    pub open spec fn alias_entries(&self) -> Seq<(Seq<char>, Seq<char>)> {
        entries(self.aliases@)
    }

    pub open spec fn variable_entries(&self) -> Seq<(Seq<char>, Seq<char>)> {
        entries(self.variables@)
    }

    /// Alias names and variable names are each unique.
    pub open spec fn wf(&self) -> bool {
        keys_unique(self.alias_entries()) && keys_unique(self.variable_entries())
    }
}

/// Why the state could not be built from the environment; each names the
/// variable.
#[derive(Debug)]
pub enum StateError {
    EnvVarNotSet(String),
    EnvVarEmpty(String),
    InvalidEnvVar(String),
}

/// What the environment holds for a variable.
#[derive(Debug)]
pub enum EnvValue {
    Unset,
    NotUnicode,
    Value(String),
}

pub const HOME_VAR: &'static str = "HOME";

pub const USER_VAR: &'static str = "USER";

/// `r` is what reading variable `var` gives when the environment holds `v`.
pub open spec fn env_checked(var: Seq<char>, v: EnvValue, r: Result<String, StateError>) -> bool {
    match v {
        EnvValue::Unset => r is Err && r->Err_0 is EnvVarNotSet && r->Err_0->EnvVarNotSet_0@
            == var,
        EnvValue::NotUnicode => r is Err && r->Err_0 is InvalidEnvVar
            && r->Err_0->InvalidEnvVar_0@ == var,
        EnvValue::Value(s) => if s@.len() == 0 {
            r is Err && r->Err_0 is EnvVarEmpty && r->Err_0->EnvVarEmpty_0@ == var
        } else {
            r is Ok && r->Ok_0@ == s@
        },
    }
}

/// Checks the value the environment holds for `var`: it must be set, valid
/// text and not empty.
pub fn get_env_variable(var: &str, value: EnvValue) -> (r: Result<String, StateError>)
    ensures
        env_checked(var@, value, r),
{
    match value {
        EnvValue::Unset => Err(StateError::EnvVarNotSet(var.to_owned())),
        EnvValue::NotUnicode => Err(StateError::InvalidEnvVar(var.to_owned())),
        EnvValue::Value(s) => {
            if s.as_str().is_empty() {
                Err(StateError::EnvVarEmpty(var.to_owned()))
            } else {
                Ok(s)
            }
        },
    }
}

/// The state of a new session, from what the environment holds for `HOME`
/// and `USER`; `HOME` is checked first. Aliases and variables start empty.
pub fn new_state(home: EnvValue, user: EnvValue) -> (r: Result<State, StateError>)
    ensures
        ({
            let h = get_env_spec(HOME_VAR@, home);
            let u = get_env_spec(USER_VAR@, user);
            &&& r is Ok <==> (h is Ok && u is Ok)
            &&& h is Err ==> r is Err && env_checked(HOME_VAR@, home, Err(r->Err_0))
            &&& h is Ok && u is Err ==> r is Err && env_checked(USER_VAR@, user, Err(r->Err_0))
            &&& r is Ok ==> {
                let st = r->Ok_0;
                &&& st.wf()
                &&& st.home@ == h->Ok_0
                &&& st.username@ == u->Ok_0
                &&& st.aliases@.len() == 0
                &&& st.variables@.len() == 0
            }
        }),
{
    let ghost h = home;
    let ghost u = user;
    let home_dir = match get_env_variable(HOME_VAR, home) {
        Ok(v) => v,
        Err(e) => return Err(e),
    };
    let username = match get_env_variable(USER_VAR, user) {
        Ok(v) => v,
        Err(e) => return Err(e),
    };
    Ok(State { aliases: Vec::new(), username, home: home_dir, variables: Vec::new() })
}

/// The value of a variable read from the environment, or nothing when it
/// is unset, not valid text or empty.
pub open spec fn get_env_spec(var: Seq<char>, v: EnvValue) -> Result<Seq<char>, ()> {
    match v {
        EnvValue::Value(s) => if s@.len() == 0 {
            Err(())
        } else {
            Ok(s@)
        },
        _ => Err(()),
    }
}

proof fn lemma_lookup_first(t: Seq<(Seq<char>, Seq<char>)>, k: Seq<char>, i: int)
    requires
        0 <= i < t.len(),
        t[i].0 == k,
        forall|j: int| 0 <= j < i ==> t[j].0 != k,
    ensures
        lookup(t, k) == Some(t[i].1),
    decreases i,
{
    if i > 0 {
        lemma_lookup_first(t.drop_first(), k, i - 1);
    }
}

proof fn lemma_lookup_none(t: Seq<(Seq<char>, Seq<char>)>, k: Seq<char>)
    requires
        forall|j: int| 0 <= j < t.len() ==> t[j].0 != k,
    ensures
        lookup(t, k) is None,
    decreases t.len(),
{
    if t.len() > 0 {
        lemma_lookup_none(t.drop_first(), k);
    }
}

/// In a table with unique names, the value of a name is the value of its
/// one entry, or nothing.
pub proof fn lemma_lookup_unique(t: Seq<(Seq<char>, Seq<char>)>, k: Seq<char>)
    requires
        keys_unique(t),
    ensures
        (exists|i: int| 0 <= i < t.len() && t[i].0 == k) ==> lookup(t, k) is Some,
        forall|i: int| 0 <= i < t.len() && t[i].0 == k ==> lookup(t, k) == Some(t[i].1),
        (forall|i: int| 0 <= i < t.len() ==> t[i].0 != k) ==> lookup(t, k) is None,
{
    assert forall|i: int| 0 <= i < t.len() && t[i].0 == k implies lookup(t, k) == Some(
        t[i].1,
    ) by {
        lemma_lookup_first(t, k, i);
    }
    if forall|i: int| 0 <= i < t.len() ==> t[i].0 != k {
        lemma_lookup_none(t, k);
    }
}

/// Binding a name in a table with unique names keeps the names unique,
/// gives that name the new value and leaves every other name as it was.
pub proof fn lemma_inserted(t: Seq<(Seq<char>, Seq<char>)>, k: Seq<char>, v: Seq<char>, k2: Seq<char>)
    requires
        keys_unique(t),
    ensures
        keys_unique(inserted(t, k, v)),
        lookup(inserted(t, k, v), k2) == if k2 == k {
            Some(v)
        } else {
            lookup(t, k2)
        },
{
    let t2 = inserted(t, k, v);
    assert(keys_unique(t2));
    lemma_lookup_unique(t, k2);
    lemma_lookup_unique(t2, k2);
    if exists|i: int| 0 <= i < t.len() && t[i].0 == k {
        let i = choose|i: int| 0 <= i < t.len() && t[i].0 == k;
        if k2 == k {
            assert(t2[i].0 == k2);
        } else if exists|j: int| 0 <= j < t.len() && t[j].0 == k2 {
            let j = choose|j: int| 0 <= j < t.len() && t[j].0 == k2;
            assert(t2[j] == t[j]);
        } else {
            assert(forall|j: int| 0 <= j < t2.len() ==> t2[j].0 != k2);
        }
    } else {
        if k2 == k {
            assert(t2[t.len() as int].0 == k2);
        } else if exists|j: int| 0 <= j < t.len() && t[j].0 == k2 {
            let j = choose|j: int| 0 <= j < t.len() && t[j].0 == k2;
            assert(t2[j] == t[j]);
        } else {
            assert(forall|j: int| 0 <= j < t2.len() ==> t2[j].0 != k2);
        }
    }
}

/// Index of the first entry named `k`.
pub fn find_entry(t: &Vec<(String, String)>, k: &String) -> (r: Option<usize>)
    ensures
        match r {
            Some(i) => i < t@.len() && entries(t@)[i as int].0 == k@ && forall|j: int|
                0 <= j < i ==> entries(t@)[j].0 != k@,
            None => forall|j: int| 0 <= j < t@.len() ==> entries(t@)[j].0 != k@,
        },
{
    let mut i: usize = 0;
    while i < t.len()
        invariant
            i <= t@.len(),
            forall|j: int| 0 <= j < i ==> entries(t@)[j].0 != k@,
        decreases t@.len() - i,
    {
        if t[i].0 == *k {
            return Some(i);
        }
        i += 1;
    }
    None
}

/// Binds `k` to `v` in a table with unique names.
pub fn insert_entry(t: &mut Vec<(String, String)>, k: String, v: String)
    requires
        keys_unique(entries(old(t)@)),
    ensures
        entries(final(t)@) == inserted(entries(old(t)@), k@, v@),
        keys_unique(entries(final(t)@)),
{
    let ghost e = entries(t@);
    let ghost kv = k@;
    let ghost vv = v@;
    match find_entry(t, &k) {
        Some(i) => {
            proof {
                let c = choose|c: int| 0 <= c < e.len() && e[c].0 == kv;
                assert(c == i);
            }
            t.set(i, (k, v));
            assert(entries(t@) =~= e.update(i as int, (kv, vv)));
        },
        None => {
            t.push((k, v));
            assert(entries(t@) =~= e.push((kv, vv)));
        },
    }
    proof {
        lemma_inserted(e, kv, vv, kv);
    }
}

/// The value of variable `var`, or empty text when it is not set.
pub open spec fn var_value(state: &State, var: Seq<char>) -> Seq<char> {
    match lookup(state.variable_entries(), var) {
        Some(v) => v,
        None => Seq::empty(),
    }
}

/// Reads a variable; an unknown one reads as empty text.
pub fn read_var(var: &String, state: &State) -> (r: String)
    ensures
        r@ == var_value(state, var@),
{
    match find_entry(&state.variables, var) {
        Some(i) => {
            proof {
                lemma_lookup_first(state.variable_entries(), var@, i as int);
            }
            state.variables[i].1.clone()
        },
        None => {
            proof {
                lemma_lookup_none(state.variable_entries(), var@);
            }
            String::new()
        },
    }
}

/// Sets a shell variable, replacing an earlier value.
pub fn set_variable(key: String, val: String, state: &mut State)
    requires
        old(state).wf(),
    ensures
        final(state).wf(),
        final(state).variable_entries() == inserted(old(state).variable_entries(), key@, val@),
        final(state).aliases == old(state).aliases,
        final(state).home == old(state).home,
        final(state).username == old(state).username,
{
    insert_entry(&mut state.variables, key, val);
}

} // verus!
