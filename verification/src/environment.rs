//! Variable scopes: a chain of scopes, innermost first, each mapping names to
//! values.

use vstd::prelude::*;
use vstd::hash_map::StringHashMap;
use crate::text::push_all;
use crate::token::Token;

verus! {

/// An error of the running program.
#[derive(Debug)]
pub struct RuntimeError {
    pub message: String,
}

/// The message for a name that no scope defines.
pub open spec fn undefined_message(name: Seq<char>) -> Seq<char> {
    "Undefined variable '"@ + name + "'."@
}

/// The index of the innermost scope that defines `name`, if any.
pub open spec fn resolve<V>(scopes: Seq<Map<Seq<char>, V>>, name: Seq<char>) -> Option<int>
    decreases scopes.len(),
{
    if scopes.len() == 0 {
        None
    } else if scopes[0].contains_key(name) {
        Some(0)
    } else {
        match resolve(scopes.drop_first(), name) {
            Some(k) => Some(k + 1),
            None => None,
        }
    }
}

/// What `resolve` finds: the first scope that defines the name.
pub proof fn lemma_resolve<V>(scopes: Seq<Map<Seq<char>, V>>, name: Seq<char>)
    ensures
        match resolve(scopes, name) {
            Some(k) => 0 <= k < scopes.len() && scopes[k].contains_key(name) && forall|j: int|
                0 <= j < k ==> !(#[trigger] scopes[j]).contains_key(name),
            None => forall|j: int| 0 <= j < scopes.len() ==> !(#[trigger] scopes[j]).contains_key(name),
        },
    decreases scopes.len(),
{
    if scopes.len() > 0 && !scopes[0].contains_key(name) {
        lemma_resolve(scopes.drop_first(), name);
        assert forall|j: int| 1 <= j < scopes.len() implies scopes[j] == scopes.drop_first()[j - 1] by {}
    }
}

/// One scope of variables and the scope that encloses it.
#[verifier::reject_recursive_types(V)]
pub struct Environment<V> {
    pub variables: StringHashMap<V>,
    pub parent: Option<Box<Environment<V>>>,
}

impl<V> Environment<V> {
    /// The chain of scopes, this one first and the outermost last.
    pub open spec fn scopes(self) -> Seq<Map<Seq<char>, V>>
        decreases self,
    {
        seq![self.variables@] + match self.parent {
            Some(parent) => parent.scopes(),
            None => seq![],
        }
    }
}

fn undefined_variable(name: &str) -> (e: RuntimeError)
    ensures
        e.message@ == undefined_message(name@),
{
    let mut message = "Undefined variable '".to_owned();
    push_all(&mut message, name);
    push_all(&mut message, "'.");
    RuntimeError { message }
}

impl<V: Clone> Environment<V> {
    /// A single empty scope.
    pub fn new() -> (r: Self)
        ensures
            r.scopes() == seq![Map::<Seq<char>, V>::empty()],
    {
        Self { variables: StringHashMap::new(), parent: None }
    }

    /// Defines `name` in this (the innermost) scope, replacing any value it
    /// had there.
    pub fn define(&mut self, name: String, value: V)
        ensures
            final(self).scopes() == old(self).scopes().update(0, old(self).scopes()[0].insert(name@, value)),
    {
        self.variables.insert(name, value);
        assert(self.scopes() =~= old(self).scopes().update(0, old(self).scopes()[0].insert(name@, value)));
    }
    /// The innermost scope that defines `name` gets `value`; where none
    /// does, nothing changes and the error says that the variable is
    /// undefined.
    pub fn assign(&mut self, name: Token, value: V) -> (r: Result<(), RuntimeError>)
        ensures
            match resolve(old(self).scopes(), name.lexeme@) {
                Some(k) => r is Ok && final(self).scopes() == old(self).scopes().update(
                    k,
                    old(self).scopes()[k].insert(name.lexeme@, value),
                ),
                None => r matches Err(e) && e.message@ == undefined_message(name.lexeme@)
                    && final(self).scopes() == old(self).scopes(),
            },
        decreases old(self).scopes().len(),
    {
        let ghost old_scopes = self.scopes();
        let ghost n = name.lexeme@;
        if self.variables.contains_key(name.lexeme.as_str()) {
            self.variables.insert(name.lexeme.clone(), value);
            assert(self.scopes() =~= old_scopes.update(0, old_scopes[0].insert(n, value)));
            return Ok(());
        }
        match self.parent.take() {
            Some(mut parent) => {
                let ghost old_parent_scopes = parent.scopes();
                assert(old_scopes =~= seq![self.variables@] + old_parent_scopes);
                assert(old_scopes.drop_first() =~= old_parent_scopes);
                proof {
                    lemma_resolve(old_parent_scopes, n);
                    assert(!old_scopes[0].contains_key(n));
                    assert(resolve(old_scopes, n) == match resolve(old_parent_scopes, n) {
                        Some(k) => Some(k + 1),
                        None => None::<int>,
                    });
                }
                let r = parent.assign(name, value);
                let ghost new_parent_scopes = parent.scopes();
                self.parent = Some(parent);
                assert(self.scopes() =~= seq![self.variables@] + new_parent_scopes);
                proof {
                    match resolve(old_parent_scopes, n) {
                        Some(k) => {
                            assert(self.scopes() =~= old_scopes.update(k + 1, old_scopes[k + 1].insert(n, value)));
                        },
                        None => {
                            assert(self.scopes() =~= old_scopes);
                        },
                    }
                }
                r
            },
            None => {
                assert(old_scopes.drop_first() =~= Seq::<Map<Seq<char>, V>>::empty());
                assert(resolve(old_scopes.drop_first(), n) is None);
                assert(resolve(old_scopes, n) is None);
                assert(self.scopes() =~= old_scopes);
                Err(undefined_variable(name.lexeme.as_str()))
            },
        }
    }

    /// The value of `name` in the innermost scope that defines it, or the
    /// error that the variable is undefined.
    pub fn get(&self, name: Token) -> (r: Result<V, RuntimeError>)
        ensures
            match resolve(self.scopes(), name.lexeme@) {
                Some(k) => r matches Ok(v) && cloned(self.scopes()[k][name.lexeme@], v),
                None => r matches Err(e) && e.message@ == undefined_message(name.lexeme@),
            },
        decreases self,
    {
        match self.variables.get(name.lexeme.as_str()) {
            Some(val) => {
                assert(self.scopes()[0] == self.variables@);
                assert(resolve(self.scopes(), name.lexeme@) == Some(0int));
                let r = Ok(val.clone());
                assert(r is Ok);
                r
            },
            None => match &self.parent {
                Some(parent) => {
                    assert(self.scopes().drop_first() =~= parent.scopes());
                    proof {
                        lemma_resolve(parent.scopes(), name.lexeme@);
                        assert(!self.scopes()[0].contains_key(name.lexeme@));
                        assert(resolve(self.scopes(), name.lexeme@) == match resolve(parent.scopes(), name.lexeme@) {
                            Some(k) => Some(k + 1),
                            None => None::<int>,
                        });
                    }
                    let r = parent.get(name);
                    assert(resolve(self.scopes(), name.lexeme@) is Some ==> r is Ok);
                    r
                },
                None => {
                    assert(self.scopes().drop_first() =~= Seq::<Map<Seq<char>, V>>::empty());
                    assert(resolve(self.scopes().drop_first(), name.lexeme@) is None);
                    assert(resolve(self.scopes(), name.lexeme@) is None);
                    Err(undefined_variable(name.lexeme.as_str()))
                },
            },
        }
    }

    /// A new empty scope enclosed by this one.
    pub fn child(self) -> (r: Self)
        ensures
            r.scopes() == seq![Map::<Seq<char>, V>::empty()] + self.scopes(),
    {
        Environment { variables: StringHashMap::new(), parent: Some(Box::new(self)) }
    }

    /// The scope `distance` steps out from this one.
    pub fn ancestor(&self, distance: usize) -> (r: &Self)
        requires
            distance < self.scopes().len(),
        ensures
            r.scopes() == self.scopes().skip(distance as int),
    {
        let mut environment = self;
        let mut k: usize = 0;
        assert(self.scopes().skip(0) =~= self.scopes());
        while k < distance
            invariant
                k <= distance < self.scopes().len(),
                environment.scopes() == self.scopes().skip(k as int),
            decreases distance - k,
        {
            match &environment.parent {
                Some(parent) => {
                    assert(environment.scopes().drop_first() =~= parent.scopes());
                    assert(self.scopes().skip(k as int).drop_first() =~= self.scopes().skip(k + 1));
                    environment = &**parent;
                },
                None => {
                    assert(environment.scopes().len() == 1);
                    return environment;
                },
            }
            k += 1;
        }
        environment
    }

    /// The value of `name` in the scope `distance` steps out, or the error
    /// that the variable is undefined; enclosing scopes are not searched.
    pub fn get_at(&self, distance: usize, name: &str) -> (r: Result<V, RuntimeError>)
        requires
            distance < self.scopes().len(),
        ensures
            self.scopes()[distance as int].contains_key(name@) ==> (r matches Ok(v) && cloned(
                self.scopes()[distance as int][name@],
                v,
            )),
            !self.scopes()[distance as int].contains_key(name@) ==> (r matches Err(e)
                && e.message@ == undefined_message(name@)),
    {
        let environment = self.ancestor(distance);
        assert(environment.scopes()[0] == environment.variables@);
        match environment.variables.get(name) {
            Some(val) => Ok(val.clone()),
            None => Err(undefined_variable(name)),
        }
    }

    /// Sets `name` to `value` in the scope `distance` steps out.
    pub fn assign_at(&mut self, distance: usize, name: &str, value: V)
        requires
            distance < old(self).scopes().len(),
        ensures
            final(self).scopes() == old(self).scopes().update(
                distance as int,
                old(self).scopes()[distance as int].insert(name@, value),
            ),
        decreases distance,
    {
        let ghost old_scopes = self.scopes();
        if distance == 0 {
            self.variables.insert(name.to_owned(), value);
            assert(self.scopes() =~= old_scopes.update(0, old_scopes[0].insert(name@, value)));
        } else {
            match self.parent.take() {
                Some(mut parent) => {
                    assert(old_scopes.drop_first() =~= parent.scopes());
                    parent.assign_at(distance - 1, name, value);
                    self.parent = Some(parent);
                    assert(self.scopes() =~= old_scopes.update(
                        distance as int,
                        old_scopes[distance as int].insert(name@, value),
                    ));
                },
                None => {
                    assert(old_scopes.len() == 1);
                },
            }
        }
    }
}

/// The value `name` has in the chain of scopes: its value in the innermost
/// scope that defines it.
pub open spec fn lookup<V>(scopes: Seq<Map<Seq<char>, V>>, name: Seq<char>) -> Option<V> {
    match resolve(scopes, name) {
        Some(k) => Some(scopes[k][name]),
        None => None,
    }
}

/// Looking a name up: the innermost scope first, then the ones enclosing it.
pub proof fn lemma_lookup_cons<V>(scopes: Seq<Map<Seq<char>, V>>, name: Seq<char>)
    requires
        scopes.len() > 0,
    ensures
        lookup(scopes, name) == if scopes[0].contains_key(name) {
            Some(scopes[0][name])
        } else {
            lookup(scopes.drop_first(), name)
        },
{
    lemma_resolve(scopes.drop_first(), name);
    if let Some(k) = resolve(scopes.drop_first(), name) {
        assert(scopes[k + 1] == scopes.drop_first()[k]);
    }
}

/// After `define(name, value)`, `name` has `value`, and every other name has
/// the value it had.
pub proof fn lemma_define_then_lookup<V>(scopes: Seq<Map<Seq<char>, V>>, name: Seq<char>, value: V, other: Seq<char>)
    requires
        scopes.len() > 0,
    ensures
        lookup(scopes.update(0, scopes[0].insert(name, value)), name) == Some(value),
        other != name ==> lookup(scopes.update(0, scopes[0].insert(name, value)), other) == lookup(scopes, other),
{
    let after = scopes.update(0, scopes[0].insert(name, value));
    assert(after.drop_first() =~= scopes.drop_first());
    lemma_lookup_cons(after, name);
    lemma_lookup_cons(after, other);
    lemma_lookup_cons(scopes, other);
}

/// After an `assign(name, value)` that succeeds, `name` has `value`, and
/// every other name has the value it had; an `assign` fails exactly when
/// `name` has no value.
pub proof fn lemma_assign_then_lookup<V>(scopes: Seq<Map<Seq<char>, V>>, name: Seq<char>, value: V, other: Seq<char>)
    ensures
        (resolve(scopes, name) is None) <==> (lookup(scopes, name) is None),
        resolve(scopes, name) matches Some(k) ==> lookup(scopes.update(k, scopes[k].insert(name, value)), name)
            == Some(value),
        resolve(scopes, name) matches Some(k) ==> (other != name ==> lookup(
            scopes.update(k, scopes[k].insert(name, value)),
            other,
        ) == lookup(scopes, other)),
    decreases scopes.len(),
{
    if scopes.len() > 0 {
        lemma_resolve(scopes, name);
        if let Some(k) = resolve(scopes, name) {
            let after = scopes.update(k, scopes[k].insert(name, value));
            lemma_lookup_cons(after, name);
            lemma_lookup_cons(after, other);
            lemma_lookup_cons(scopes, other);
            if k == 0 {
                assert(after.drop_first() =~= scopes.drop_first());
            } else {
                lemma_assign_then_lookup(scopes.drop_first(), name, value, other);
                assert(resolve(scopes.drop_first(), name) == Some(k - 1));
                assert(after.drop_first() =~= scopes.drop_first().update(k - 1, scopes.drop_first()[k - 1].insert(name, value)));
                assert(after[0] == scopes[0]);
            }
        }
    }
}

/// A new inner scope with nothing defined in it sees every name as its
/// enclosing scopes do.
pub proof fn lemma_child_sees_enclosing<V>(scopes: Seq<Map<Seq<char>, V>>, name: Seq<char>)
    ensures
        lookup(seq![Map::<Seq<char>, V>::empty()] + scopes, name) == lookup(scopes, name),
{
    let inner = seq![Map::<Seq<char>, V>::empty()] + scopes;
    assert(inner.drop_first() =~= scopes);
    lemma_resolve(scopes, name);
    if let Some(k) = resolve(scopes, name) {
        assert(inner[k + 1] == scopes[k]);
    }
}

/// A name defined in an inner scope hides its value in the enclosing scopes,
/// which keep it: once the inner scope is left, the name has its old value.
pub proof fn lemma_inner_define_shadows<V>(scopes: Seq<Map<Seq<char>, V>>, name: Seq<char>, value: V)
    ensures
        ({
            let inner = seq![Map::<Seq<char>, V>::empty()] + scopes;
            let defined = inner.update(0, inner[0].insert(name, value));
            &&& lookup(defined, name) == Some(value)
            &&& defined.drop_first() == scopes
        }),
{
    let inner = seq![Map::<Seq<char>, V>::empty()] + scopes;
    let defined = inner.update(0, inner[0].insert(name, value));
    assert(defined.drop_first() =~= scopes);
}

} // verus!
