//! Variable scopes: each environment holds the variables of one scope and
//! owns the environment of the scope around it.

use vstd::prelude::*;

use crate::text::same_text;

verus! {

/// The variables of one scope, and the scope that encloses it.
pub struct Environment<V> {
    enclosing: Option<Box<Environment<V>>>,
    values: Vec<(String, V)>,
}

/// No name is bound twice in one scope.
pub open spec fn names_distinct<V>(vals: Seq<(String, V)>) -> bool {
    forall|i: int, j: int|
        0 <= i < vals.len() && 0 <= j < vals.len() && i != j ==> (#[trigger] vals[i]).0@ != (
        #[trigger] vals[j]).0@
}

/// The value bound to `name` in a list of bindings: the last binding of it.
pub open spec fn find_in<V>(vals: Seq<(String, V)>, name: Seq<char>) -> Option<V>
    decreases vals.len(),
{
    if vals.len() == 0 {
        None
    } else if vals.last().0@ == name {
        Some(vals.last().1)
    } else {
        find_in(vals.drop_last(), name)
    }
}

/// The bindings of one scope as a map from names to values.
pub open spec fn scope_map<V>(vals: Seq<(String, V)>) -> Map<Seq<char>, V> {
    Map::new(|n: Seq<char>| find_in(vals, n) is Some, |n: Seq<char>| find_in(vals, n)->0)
}

/// The value a name has in a stack of scopes, innermost first: its binding
/// in the first scope that binds it.
pub open spec fn lookup_in<V>(scopes: Seq<Map<Seq<char>, V>>, name: Seq<char>) -> Option<V>
    decreases scopes.len(),
{
    if scopes.len() == 0 {
        None
    } else if scopes[0].contains_key(name) {
        Some(scopes[0][name])
    } else {
        lookup_in(scopes.drop_first(), name)
    }
}

/// The index of the innermost scope that binds `name`, if any.
pub open spec fn binding_scope<V>(scopes: Seq<Map<Seq<char>, V>>, name: Seq<char>) -> Option<int>
    decreases scopes.len(),
{
    if scopes.len() == 0 {
        None
    } else if scopes[0].contains_key(name) {
        Some(0)
    } else {
        match binding_scope(scopes.drop_first(), name) {
            Some(i) => Some(i + 1),
            None => None,
        }
    }
}

/// The scope `binding_scope` finds lies in the stack and binds the name;
/// no scope before it does.
pub proof fn lemma_binding_scope<V>(scopes: Seq<Map<Seq<char>, V>>, name: Seq<char>)
    ensures
        binding_scope(scopes, name) matches Some(k) ==> {
            &&& 0 <= k < scopes.len()
            &&& scopes[k].contains_key(name)
            &&& forall|j: int| 0 <= j < k ==> !(#[trigger] scopes[j]).contains_key(name)
        },
        binding_scope(scopes, name) is None ==> forall|j: int|
            0 <= j < scopes.len() ==> !(#[trigger] scopes[j]).contains_key(name),
    decreases scopes.len(),
{
    if scopes.len() > 0 && !scopes[0].contains_key(name) {
        lemma_binding_scope(scopes.drop_first(), name);
        assert forall|j: int| 0 < j < scopes.len() implies scopes[j] == scopes.drop_first()[j
            - 1] by {}
    }
}

/// Defining binds the name in the innermost scope.
pub open spec fn define_in<V>(scopes: Seq<Map<Seq<char>, V>>, name: Seq<char>, value: V) -> Seq<
    Map<Seq<char>, V>,
> {
    scopes.update(0, scopes[0].insert(name, value))
}

/// Assigning rebinds the name in the innermost scope that binds it; a name
/// no scope binds changes nothing.
pub open spec fn assign_in<V>(scopes: Seq<Map<Seq<char>, V>>, name: Seq<char>, value: V) -> Seq<
    Map<Seq<char>, V>,
> {
    match binding_scope(scopes, name) {
        Some(k) => scopes.update(k, scopes[k].insert(name, value)),
        None => scopes,
    }
}

proof fn lemma_find_in_index<V>(vals: Seq<(String, V)>, name: Seq<char>, k: int)
    requires
        names_distinct(vals),
        0 <= k < vals.len(),
        vals[k].0@ == name,
    ensures
        find_in(vals, name) == Some(vals[k].1),
    decreases vals.len(),
{
    if k < vals.len() - 1 {
        assert(vals.last() == vals[vals.len() - 1]);
        assert(names_distinct(vals.drop_last())) by {
            assert forall|i: int, j: int|
                0 <= i < vals.drop_last().len() && 0 <= j < vals.drop_last().len() && i
                    != j implies (#[trigger] vals.drop_last()[i]).0@ != (
            #[trigger] vals.drop_last()[j]).0@ by {
                assert(vals.drop_last()[i] == vals[i]);
                assert(vals.drop_last()[j] == vals[j]);
            }
        }
        lemma_find_in_index(vals.drop_last(), name, k);
    }
}

proof fn lemma_find_in_absent<V>(vals: Seq<(String, V)>, name: Seq<char>)
    requires
        forall|i: int| 0 <= i < vals.len() ==> (#[trigger] vals[i]).0@ != name,
    ensures
        find_in(vals, name) is None,
    decreases vals.len(),
{
    if vals.len() > 0 {
        assert(vals.last() == vals[vals.len() - 1]);
        assert forall|i: int| 0 <= i < vals.drop_last().len() implies (
        #[trigger] vals.drop_last()[i]).0@ != name by {
            assert(vals.drop_last()[i] == vals[i]);
        }
        lemma_find_in_absent(vals.drop_last(), name);
    }
}

proof fn lemma_find_in_present<V>(vals: Seq<(String, V)>, name: Seq<char>, k: int)
    requires
        0 <= k < vals.len(),
        vals[k].0@ == name,
    ensures
        find_in(vals, name) is Some,
    decreases vals.len(),
{
    if vals.last().0@ != name {
        assert(k < vals.len() - 1);
        assert(vals.drop_last()[k] == vals[k]);
        lemma_find_in_present(vals.drop_last(), name, k);
    }
}

proof fn lemma_find_in_push<V>(vals: Seq<(String, V)>, entry: (String, V), name: Seq<char>)
    ensures
        find_in(vals.push(entry), name) == if entry.0@ == name {
            Some(entry.1)
        } else {
            find_in(vals, name)
        },
{
    assert(vals.push(entry).drop_last() =~= vals);
}

proof fn lemma_find_in_update<V>(vals: Seq<(String, V)>, k: int, entry: (String, V), name: Seq<char>)
    requires
        names_distinct(vals),
        0 <= k < vals.len(),
        vals[k].0@ == entry.0@,
    ensures
        names_distinct(vals.update(k, entry)),
        find_in(vals.update(k, entry), name) == if entry.0@ == name {
            Some(entry.1)
        } else {
            find_in(vals, name)
        },
    decreases vals.len(),
{
    let u = vals.update(k, entry);
    assert(names_distinct(u)) by {
        assert forall|i: int, j: int|
            0 <= i < u.len() && 0 <= j < u.len() && i != j implies (#[trigger] u[i]).0@ != (
        #[trigger] u[j]).0@ by {
            assert(u[i].0@ == vals[i].0@);
            assert(u[j].0@ == vals[j].0@);
        }
    }
    if entry.0@ == name {
        lemma_find_in_index(u, name, k);
    } else {
        if k == vals.len() - 1 {
            assert(u.drop_last() =~= vals.drop_last());
        } else {
            assert(u.drop_last() =~= vals.drop_last().update(k, entry));
            assert(names_distinct(vals.drop_last())) by {
                assert forall|i: int, j: int|
                    0 <= i < vals.drop_last().len() && 0 <= j < vals.drop_last().len() && i
                        != j implies (#[trigger] vals.drop_last()[i]).0@ != (
                #[trigger] vals.drop_last()[j]).0@ by {
                    assert(vals.drop_last()[i] == vals[i]);
                    assert(vals.drop_last()[j] == vals[j]);
                }
            }
            lemma_find_in_update(vals.drop_last(), k, entry, name);
        }
    }
}

impl<V> Environment<V> {
    #[verifier::type_invariant]
    spec fn inv(self) -> bool {
        names_distinct(self.values@)
    }

    /// The scopes this environment sees, innermost first.
    pub closed spec fn scopes(&self) -> Seq<Map<Seq<char>, V>>
        decreases self,
    {
        seq![scope_map(self.values@)] + match &self.enclosing {
            Some(parent) => parent.scopes(),
            None => Seq::empty(),
        }
    }

    /// Every environment has at least its own scope.
    pub proof fn lemma_scopes_nonempty(&self)
        ensures
            self.scopes().len() >= 1,
    {
    }

    /// An environment with one empty scope.
    pub fn new() -> (e: Self)
        ensures
            e.scopes() == seq![Map::<Seq<char>, V>::empty()],
    {
        let e = Self { enclosing: None, values: Vec::new() };
        assert(scope_map(e.values@) =~= Map::<Seq<char>, V>::empty());
        assert(e.scopes() =~= seq![Map::<Seq<char>, V>::empty()]);
        e
    }

    /// A new empty scope inside `enclosing`.
    pub fn child(enclosing: Environment<V>) -> (e: Self)
        ensures
            e.scopes() == seq![Map::<Seq<char>, V>::empty()] + enclosing.scopes(),
    {
        let e = Self { enclosing: Some(Box::new(enclosing)), values: Vec::new() };
        assert(scope_map(e.values@) =~= Map::<Seq<char>, V>::empty());
        e
    }

    /// Leaves this scope: the enclosing environment, if any.
    pub fn into_enclosing(self) -> (e: Option<Environment<V>>)
        ensures
            match e {
                Some(p) => p.scopes() == self.scopes().drop_first(),
                None => self.scopes().len() == 1,
            },
    {
        match self.enclosing {
            Some(parent) => {
                assert(self.scopes().drop_first() =~= parent.scopes());
                Some(*parent)
            },
            None => None,
        }
    }

    /// The index of the binding of `name` in this scope.
    fn position(&self, name: &str) -> (r: Option<usize>)
        ensures
            match r {
                Some(k) => k < self.values@.len() && self.values@[k as int].0@ == name@ && find_in(
                    self.values@,
                    name@,
                ) == Some(self.values@[k as int].1),
                None => find_in(self.values@, name@) is None,
            },
    {
        proof {
            use_type_invariant(self);
        }
        let n = self.values.len();
        let mut i: usize = 0;
        while i < n
            invariant
                n == self.values@.len(),
                names_distinct(self.values@),
                0 <= i <= n,
                forall|j: int| 0 <= j < i ==> (#[trigger] self.values@[j]).0@ != name@,
            decreases n - i,
        {
            if same_text(self.values[i].0.as_str(), name) {
                proof {
                    lemma_find_in_index(self.values@, name@, i as int);
                }
                return Some(i);
            }
            i = i + 1;
        }
        proof {
            lemma_find_in_absent(self.values@, name@);
        }
        None
    }

    /// Binds `name` to `value` in this scope, replacing a binding it had here.
    pub fn define(&mut self, name: String, value: V)
        ensures
            final(self).scopes() == define_in(old(self).scopes(), name@, value),
    {
        proof {
            use_type_invariant(&*self);
        }
        let ghost old_scopes = self.scopes();
        let ghost old_vals = self.values@;
        let pos = self.position(name.as_str());
        let mut vals: Vec<(String, V)> = Vec::new();
        std::mem::swap(&mut vals, &mut self.values);
        let ghost name_view = name@;
        match pos {
            Some(k) => {
                proof {
                    lemma_find_in_update(old_vals, k as int, (name, value), name_view);
                    assert forall|n: Seq<char>|
                        #![auto]
                        find_in(old_vals.update(k as int, (name, value)), n) == if name_view == n {
                            Some(value)
                        } else {
                            find_in(old_vals, n)
                        } by {
                        lemma_find_in_update(old_vals, k as int, (name, value), n);
                    }
                }
                vals.set(k, (name, value));
            },
            None => {
                proof {
                    assert forall|n: Seq<char>|
                        #![auto]
                        find_in(old_vals.push((name, value)), n) == if name_view == n {
                            Some(value)
                        } else {
                            find_in(old_vals, n)
                        } by {
                        lemma_find_in_push(old_vals, (name, value), n);
                    }
                    assert(names_distinct(old_vals.push((name, value)))) by {
                        let u = old_vals.push((name, value));
                        assert forall|i: int, j: int|
                            0 <= i < u.len() && 0 <= j < u.len() && i != j implies (
                        #[trigger] u[i]).0@ != (#[trigger] u[j]).0@ by {
                            if i == u.len() - 1 {
                                assert(u[j] == old_vals[j]);
                                if old_vals[j].0@ == name_view {
                                    lemma_find_in_present(old_vals, name_view, j);
                                }
                            } else if j == u.len() - 1 {
                                assert(u[i] == old_vals[i]);
                                if old_vals[i].0@ == name_view {
                                    lemma_find_in_present(old_vals, name_view, i);
                                }
                            } else {
                                assert(u[i] == old_vals[i]);
                                assert(u[j] == old_vals[j]);
                            }
                        }
                    }
                }
                vals.push((name, value));
            },
        }
        self.values = vals;
        assert(scope_map(self.values@) =~= old_scopes[0].insert(name_view, value));
        assert(self.scopes() =~= define_in(old_scopes, name_view, value));
    }

    /// The value of `name`: its binding in the innermost scope that binds it.
    pub fn get(&self, name: &str) -> (r: Option<&V>)
        ensures
            match r {
                Some(v) => lookup_in(self.scopes(), name@) == Some(*v),
                None => lookup_in(self.scopes(), name@) is None,
            },
        decreases self,
    {
        match self.position(name) {
            Some(k) => {
                return Some(&self.values[k].1);
            },
            None => {},
        }
        assert(self.scopes()[0] == scope_map(self.values@));
        assert(!self.scopes()[0].contains_key(name@));
        match &self.enclosing {
            Some(parent) => {
                assert(self.scopes().drop_first() =~= parent.scopes());
                let p: &Environment<V> = parent;
                assert(lookup_in(self.scopes(), name@) == lookup_in(p.scopes(), name@));
                p.get(name)
            },
            None => {
                assert(self.scopes().drop_first() =~= Seq::<Map<Seq<char>, V>>::empty());
                assert(lookup_in(Seq::<Map<Seq<char>, V>>::empty(), name@) is None);
                None
            },
        }
    }

    /// Rebinds `name` to `value` in the innermost scope that binds it;
    /// `None`, with nothing changed, when no scope binds it.
    pub fn assign(&mut self, name: &str, value: V) -> (r: Option<()>)
        ensures
            r is Some <==> binding_scope(old(self).scopes(), name@) is Some,
            final(self).scopes() == assign_in(old(self).scopes(), name@, value),
        decreases *old(self),
    {
        proof {
            use_type_invariant(&*self);
        }
        let ghost old_scopes = self.scopes();
        let ghost old_vals = self.values@;
        match self.position(name) {
            Some(k) => {
                let mut vals: Vec<(String, V)> = Vec::new();
                std::mem::swap(&mut vals, &mut self.values);
                let key = String::from_str(name);
                proof {
                    lemma_find_in_update(old_vals, k as int, (key, value), name@);
                    assert forall|n: Seq<char>|
                        #![auto]
                        find_in(old_vals.update(k as int, (key, value)), n) == if name@ == n {
                            Some(value)
                        } else {
                            find_in(old_vals, n)
                        } by {
                        lemma_find_in_update(old_vals, k as int, (key, value), n);
                    }
                }
                vals.set(k, (key, value));
                self.values = vals;
                assert(scope_map(self.values@) =~= old_scopes[0].insert(name@, value));
                assert(self.scopes() =~= assign_in(old_scopes, name@, value));
                return Some(());
            },
            None => {},
        }
        assert(old_scopes[0] == scope_map(old_vals));
        assert(!old_scopes[0].contains_key(name@));
        let mut enclosing: Option<Box<Environment<V>>> = None;
        std::mem::swap(&mut enclosing, &mut self.enclosing);
        match enclosing {
            Some(mut parent) => {
                let ghost parent_scopes = parent.scopes();
                assert(old_scopes.drop_first() =~= parent_scopes);
                let r = parent.assign(name, value);
                self.enclosing = Some(parent);
                proof {
                    let new_scopes = self.scopes();
                    assert(new_scopes.drop_first() =~= assign_in(parent_scopes, name@, value));
                    match binding_scope(parent_scopes, name@) {
                        Some(k) => {
                            lemma_binding_scope(parent_scopes, name@);
                            assert(new_scopes =~= old_scopes.update(
                                k + 1,
                                old_scopes[k + 1].insert(name@, value),
                            ));
                        },
                        None => {
                            assert(new_scopes =~= old_scopes);
                        },
                    }
                }
                r
            },
            None => {
                self.enclosing = None;
                assert(self.scopes() =~= old_scopes);
                assert(old_scopes.drop_first() =~= Seq::<Map<Seq<char>, V>>::empty());
                assert(binding_scope(Seq::<Map<Seq<char>, V>>::empty(), name@) is None);
                None
            },
        }
    }
}

} // verus!
