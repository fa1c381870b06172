//! The environment of an invocation, as plain pairs of names and values.
use crate::text::{
    is_white, law_trimming_takes_the_ends, lowered, opt_ref, opt_str, str_eq, to_lower, trim,
    trimmed,
};
use vstd::prelude::*;
use vstd::string::*;

verus! {

/// The environment variables that a command reads.
#[derive(Debug, Clone, PartialEq, Eq)]
pub struct Env {
    /// Assignments in order; a later one replaces an earlier one.
    pub vars: Vec<(String, String)>,
}

/// What a list of assignments leaves behind.
pub open spec fn assigned(vars: Seq<(String, String)>) -> Map<Seq<char>, Seq<char>>
    decreases vars.len(),
{
    if vars.len() == 0 {
        Map::empty()
    } else {
        assigned(vars.drop_last()).insert(vars.last().0@, vars.last().1@)
    }
}

pub open spec fn lookup(m: Map<Seq<char>, Seq<char>>, k: Seq<char>) -> Option<Seq<char>> {
    if m.dom().contains(k) {
        Some(m[k])
    } else {
        None
    }
}

impl View for Env {
    type V = Map<Seq<char>, Seq<char>>;

    open spec fn view(&self) -> Map<Seq<char>, Seq<char>> {
        assigned(self.vars@)
    }
}

/// The conventional "on" tokens, in any case and with white space around them.
pub open spec fn is_on_token(s: Seq<char>) -> bool {
    let t = lowered(trimmed(s));
    t == "1"@ || t == "true"@ || t == "yes"@ || t == "on"@
}

/// A variable that is set to an "on" token.
pub open spec fn truthy(v: Option<Seq<char>>) -> bool {
    v is Some && is_on_token(v->0)
}

/// A variable that is unset, blank, or set to an "on" token.
pub open spec fn truthy_by_default(v: Option<Seq<char>>) -> bool {
    v is None || trimmed(v->0).len() == 0 || is_on_token(v->0)
}

/// The value with the white space around it removed, unless nothing is left.
pub open spec fn nonblank(v: Option<Seq<char>>) -> Option<Seq<char>> {
    if v is Some && trimmed(v->0).len() > 0 {
        Some(trimmed(v->0))
    } else {
        None
    }
}

/// The trimmed value of a variable, empty where it is unset.
pub open spec fn trimmed_var(m: Map<Seq<char>, Seq<char>>, k: Seq<char>) -> Seq<char> {
    match lookup(m, k) {
        Some(v) => trimmed(v),
        None => Seq::empty(),
    }
}

impl Env {
    pub fn new() -> (r: Env)
        ensures
            r@ == Map::<Seq<char>, Seq<char>>::empty(),
    {
        Env { vars: Vec::new() }
    }

    pub fn from_pairs(vars: Vec<(String, String)>) -> (r: Env)
        ensures
            r@ == assigned(vars@),
    {
        Env { vars }
    }

    /// The value of a variable.
    pub fn get(&self, key: &str) -> (r: Option<&String>)
        ensures
            opt_ref(r) == lookup(self@, key@),
    {
        let mut i: usize = self.vars.len();
        proof {
            assert(self.vars@.take(i as int) =~= self.vars@);
        }
        while i > 0
            invariant
                i <= self.vars@.len(),
                lookup(self@, key@) == lookup(assigned(self.vars@.take(i as int)), key@),
            decreases i,
        {
            i -= 1;
            proof {
                assert(self.vars@.take(i + 1).drop_last() =~= self.vars@.take(i as int));
                assert(self.vars@.take(i + 1).last() == self.vars@[i as int]);
            }
            if str_eq(self.vars[i].0.as_str(), key) {
                return Some(&self.vars[i].1);
            }
        }
        None
    }

    /// Sets a variable.
    pub fn set(&mut self, key: &str, value: &str)
        ensures
            final(self)@ == old(self)@.insert(key@, value@),
    {
        let pair = (key.to_owned(), value.to_owned());
        proof {
            assert(self.vars@.push(pair).drop_last() =~= self.vars@);
        }
        self.vars.push(pair);
    }

    /// The trimmed value of a variable, empty where it is unset.
    pub fn trimmed(&self, key: &str) -> (r: String)
        ensures
            r@ == trimmed_var(self@, key@),
    {
        match self.get(key) {
            Some(v) => trim(v.as_str()),
            None => String::new(),
        }
    }

    /// The trimmed value of a variable, where it is set and not blank.
    pub fn nonblank(&self, key: &str) -> (r: Option<String>)
        ensures
            opt_str(r) == nonblank(lookup(self@, key@)),
    {
        match self.get(key) {
            Some(v) => {
                let t = trim(v.as_str());
                if t.as_str().is_empty() {
                    None
                } else {
                    Some(t)
                }
            },
            None => None,
        }
    }
}

impl Default for Env {
    fn default() -> (r: Env)
        ensures
            r@ == Map::<Seq<char>, Seq<char>>::empty(),
    {
        Env::new()
    }
}

/// Whether a variable is set to an "on" token.
pub fn env_truthy(value: Option<&String>) -> (r: bool)
    ensures
        r == truthy(opt_ref(value)),
{
    match value {
        Some(v) => {
            let t0 = trim(v.as_str());
            let t = to_lower(t0.as_str());
            let s = t.as_str();
            str_eq(s, "1") || str_eq(s, "true") || str_eq(s, "yes") || str_eq(s, "on")
        },
        None => false,
    }
}

/// Whether a variable that is on by default is left on.
pub fn env_truthy_default_true(value: Option<&String>) -> (r: bool)
    ensures
        r == truthy_by_default(opt_ref(value)),
{
    match value {
        None => true,
        Some(v) => {
            let t = trim(v.as_str());
            t.as_str().is_empty() || env_truthy(value)
        },
    }
}

/// Setting a variable gives it that value and touches no other.
pub proof fn law_set_then_get(m: Map<Seq<char>, Seq<char>>, k: Seq<char>, v: Seq<char>, q: Seq<char>)
    ensures
        lookup(m.insert(k, v), k) == Some(v),
        q != k ==> lookup(m.insert(k, v), q) == lookup(m, q),
{
}

/// What switches a variable on: `1`, `true`, `yes` and `on`, in any case and with white
/// space around it, and nothing else.
pub proof fn law_on_and_off(a: Seq<char>, s: Seq<char>, b: Seq<char>)
    requires
        forall|i: int| 0 <= i < a.len() ==> is_white(#[trigger] a[i]),
        forall|i: int| 0 <= i < b.len() ==> is_white(#[trigger] b[i]),
        s.len() > 0 ==> !is_white(s[0]) && !is_white(s.last()),
    ensures
        truthy(Some(a + s + b)) <==> lowered(s) == "1"@ || lowered(s) == "true"@ || lowered(s)
            == "yes"@ || lowered(s) == "on"@,
        truthy_by_default(Some(a + s + b)) <==> s.len() == 0 || truthy(Some(a + s + b)),
        !truthy(None),
        truthy_by_default(None),
        nonblank(Some(a + s + b)) == if s.len() > 0 {
            Some(s)
        } else {
            None
        },
        nonblank(None) is None,
{
    law_trimming_takes_the_ends(a, s, b);
}

/// The last assignment of a variable counts.
pub proof fn law_last_assignment_counts(vars: Seq<(String, String)>, k: Seq<char>, i: int)
    requires
        0 <= i < vars.len(),
        vars[i].0@ == k,
        forall|j: int| i < j < vars.len() ==> (#[trigger] vars[j]).0@ != k,
    ensures
        lookup(assigned(vars), k) == Some(vars[i].1@),
    decreases vars.len(),
{
    if i < vars.len() - 1 {
        assert(vars[vars.len() - 1].0@ != k);
        let d = vars.drop_last();
        assert forall|j: int| i < j < d.len() implies (#[trigger] d[j]).0@ != k by {
            assert(d[j] == vars[j]);
        }
        law_last_assignment_counts(d, k, i);
    }
}

/// A variable that is never assigned is unset.
pub proof fn law_unassigned_is_unset(vars: Seq<(String, String)>, k: Seq<char>)
    requires
        forall|j: int| 0 <= j < vars.len() ==> (#[trigger] vars[j]).0@ != k,
    ensures
        lookup(assigned(vars), k) is None,
    decreases vars.len(),
{
    if vars.len() > 0 {
        let d = vars.drop_last();
        assert forall|j: int| 0 <= j < d.len() implies (#[trigger] d[j]).0@ != k by {
            assert(d[j] == vars[j]);
        }
        law_unassigned_is_unset(d, k);
        assert(vars[vars.len() - 1].0@ != k);
    }
}

/// A variable that is set is found with its value, and one that is not is not found; a
/// value that is asked for trimmed is trimmed, and empty where there is none.
pub proof fn law_variables_are_found(m: Map<Seq<char>, Seq<char>>, k: Seq<char>, v: Seq<char>)
    ensures
        lookup(m.insert(k, v), k) == Some(v),
        lookup(m.remove(k), k) is None,
        trimmed_var(m.insert(k, v), k) == trimmed(v),
        trimmed_var(m.remove(k), k) == Seq::<char>::empty(),
{
}

} // verus!
