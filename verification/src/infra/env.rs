//! Environment variables, as an in-memory table.

use vstd::prelude::*;

use crate::text::str_eq;

verus! {

/// The value bound to `key` among (key, value) pairs: the last binding.
pub open spec fn last_binding(entries: Seq<(Seq<char>, Seq<char>)>, key: Seq<char>) -> Option<
    Seq<char>,
>
    decreases entries.len(),
{
    if entries.len() == 0 {
        None
    } else if entries.last().0 == key {
        Some(entries.last().1)
    } else {
        last_binding(entries.drop_last(), key)
    }
}

/// The texts of (name, value) pairs.
pub open spec fn binding_views(v: Seq<(String, String)>) -> Seq<(Seq<char>, Seq<char>)> {
    v.map_values(|e: (String, String)| (e.0@, e.1@))
}

/// A set of environment variables.
#[derive(Debug)]
pub struct Env {
    vars: Vec<(String, String)>,
}

impl Env {
    /// The bindings, in the order given; later ones win.
    pub closed spec fn bindings(&self) -> Seq<(Seq<char>, Seq<char>)> {
        binding_views(self.vars@)
    }

    /// An environment containing exactly the given variables; of several
    /// bindings of one name, the last. `create_null(vec![])` is an empty
    /// environment.
    pub fn create_null(vars: Vec<(String, String)>) -> (r: Env)
        ensures
            r.bindings() == binding_views(vars@),
    {
        Env { vars }
    }

    /// The value of the variable `name`, if it is set.
    pub fn var(&self, name: &str) -> (r: Option<String>)
        ensures
            match r {
                Some(v) => last_binding(self.bindings(), name@) == Some(v@),
                None => last_binding(self.bindings(), name@) is None,
            },
    {
        let ghost b = self.bindings();
        let mut i = self.vars.len();
        assert(b.take(i as int) =~= b);
        while i > 0
            invariant
                b == self.bindings(),
                i <= b.len(),
                last_binding(b, name@) == last_binding(b.take(i as int), name@),
            decreases i,
        {
            let t = Ghost(b.take(i as int));
            assert(t@.last() == b[i - 1]);
            assert(t@.drop_last() =~= b.take(i - 1));
            if str_eq(self.vars[i - 1].0.as_str(), name) {
                return Some(self.vars[i - 1].1.clone());
            }
            i = i - 1;
        }
        None
    }
}

} // verus!

verus! {

/// An environment made from variables with different names gives each
/// variable its value, and no value to any other name.
pub proof fn law_configured_variables_are_set(vars: Seq<(Seq<char>, Seq<char>)>)
    requires
        forall|i: int, j: int|
            0 <= i < vars.len() && 0 <= j < vars.len() && i != j ==> #[trigger] vars[i].0
                != #[trigger] vars[j].0,
    ensures
        forall|i: int|
            0 <= i < vars.len() ==> last_binding(vars, #[trigger] vars[i].0) == Some(vars[i].1),
        forall|name: Seq<char>|
            (forall|i: int| 0 <= i < vars.len() ==> #[trigger] vars[i].0 != name) ==> last_binding(
                vars,
                name,
            ) is None,
    decreases vars.len(),
{
    if vars.len() > 0 {
        let d = vars.drop_last();
        assert forall|i: int, j: int|
            0 <= i < d.len() && 0 <= j < d.len() && i != j implies #[trigger] d[i].0
                != #[trigger] d[j].0 by {
            assert(vars[i].0 != vars[j].0);
        }
        law_configured_variables_are_set(d);
        assert forall|i: int| 0 <= i < vars.len() implies last_binding(
            vars,
            #[trigger] vars[i].0,
        ) == Some(vars[i].1) by {
            if i < vars.len() - 1 {
                assert(vars[i] == d[i]);
                assert(vars[i].0 != vars[vars.len() - 1].0);
                assert(last_binding(d, d[i].0) == Some(d[i].1));
            }
        }
        assert forall|name: Seq<char>|
            (forall|i: int| 0 <= i < vars.len() ==> #[trigger] vars[i].0 != name) implies last_binding(
                vars,
                name,
            ) is None by {
            assert(vars[vars.len() - 1].0 != name);
            assert forall|i: int| 0 <= i < d.len() implies #[trigger] d[i].0 != name by {
                assert(vars[i] == d[i]);
                assert(vars[i].0 != name);
            }
            assert(last_binding(d, name) is None);
        }
    }
}

} // verus!
