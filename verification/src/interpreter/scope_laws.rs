//! What the scope operations promise of one another: reading back a
//! definition or an assignment, leaving other names alone, and what survives
//! the end of a block.

use vstd::prelude::*;

use crate::interpreter::environment::{assign_in, binding_scope, define_in, lemma_binding_scope, lookup_in};

verus! {

/// A name is visible exactly when some scope binds it, and then it has the
/// value of the innermost such scope.
pub proof fn law_lookup_finds_binding_scope<V>(scopes: Seq<Map<Seq<char>, V>>, name: Seq<char>)
    ensures
        lookup_in(scopes, name) is Some <==> binding_scope(scopes, name) is Some,
        binding_scope(scopes, name) matches Some(k) ==> lookup_in(scopes, name) == Some(
            scopes[k][name],
        ),
    decreases scopes.len(),
{
    if scopes.len() > 0 && !scopes[0].contains_key(name) {
        law_lookup_finds_binding_scope(scopes.drop_first(), name);
        lemma_binding_scope(scopes.drop_first(), name);
    }
}

/// After a definition, the name reads back the defined value.
pub proof fn law_get_after_define<V>(scopes: Seq<Map<Seq<char>, V>>, name: Seq<char>, value: V)
    requires
        scopes.len() >= 1,
    ensures
        lookup_in(define_in(scopes, name, value), name) == Some(value),
{
}

/// A definition leaves every other name as it was.
pub proof fn law_define_keeps_others<V>(
    scopes: Seq<Map<Seq<char>, V>>,
    name: Seq<char>,
    value: V,
    other: Seq<char>,
)
    requires
        scopes.len() >= 1,
        other != name,
    ensures
        lookup_in(define_in(scopes, name, value), other) == lookup_in(scopes, other),
{
    let d = define_in(scopes, name, value);
    assert(d.drop_first() =~= scopes.drop_first());
}

/// After an assignment to a visible name, the name reads back the assigned
/// value.
pub proof fn law_get_after_assign<V>(scopes: Seq<Map<Seq<char>, V>>, name: Seq<char>, value: V)
    requires
        binding_scope(scopes, name) is Some,
    ensures
        lookup_in(assign_in(scopes, name, value), name) == Some(value),
    decreases scopes.len(),
{
    lemma_binding_scope(scopes, name);
    if !scopes[0].contains_key(name) {
        let rest = scopes.drop_first();
        law_get_after_assign(rest, name, value);
        assert(assign_in(scopes, name, value).drop_first() =~= assign_in(rest, name, value));
        assert(assign_in(scopes, name, value)[0] == scopes[0]);
    }
}

/// An assignment to a name no scope binds changes nothing.
pub proof fn law_assign_unbound_changes_nothing<V>(
    scopes: Seq<Map<Seq<char>, V>>,
    name: Seq<char>,
    value: V,
)
    requires
        lookup_in(scopes, name) is None,
    ensures
        assign_in(scopes, name, value) == scopes,
{
    law_lookup_finds_binding_scope(scopes, name);
}

/// An assignment leaves every other name as it was.
pub proof fn law_assign_keeps_others<V>(
    scopes: Seq<Map<Seq<char>, V>>,
    name: Seq<char>,
    value: V,
    other: Seq<char>,
)
    requires
        other != name,
    ensures
        lookup_in(assign_in(scopes, name, value), other) == lookup_in(scopes, other),
    decreases scopes.len(),
{
    if binding_scope(scopes, name) is Some && scopes.len() > 0 {
        lemma_binding_scope(scopes, name);
        if scopes[0].contains_key(name) {
            assert(assign_in(scopes, name, value).drop_first() =~= scopes.drop_first());
        } else {
            let rest = scopes.drop_first();
            law_assign_keeps_others(rest, name, value, other);
            assert(assign_in(scopes, name, value).drop_first() =~= assign_in(rest, name, value));
            assert(assign_in(scopes, name, value)[0] == scopes[0]);
        }
    }
}

/// What a block defines is gone once the block is left: defining in a fresh
/// inner scope and then dropping that scope gives back the scopes around it.
pub proof fn law_block_definitions_vanish<V>(
    outer: Seq<Map<Seq<char>, V>>,
    name: Seq<char>,
    value: V,
)
    ensures
        define_in(seq![Map::<Seq<char>, V>::empty()] + outer, name, value).drop_first() == outer,
{
    assert(define_in(seq![Map::<Seq<char>, V>::empty()] + outer, name, value).drop_first()
        =~= outer);
}

/// A name defined in a block shadows the outer one inside the block, and the
/// outer value is visible again after the block.
pub proof fn law_shadowing<V>(outer: Seq<Map<Seq<char>, V>>, name: Seq<char>, value: V)
    ensures
        lookup_in(define_in(seq![Map::<Seq<char>, V>::empty()] + outer, name, value), name)
            == Some(value),
        lookup_in(
            define_in(seq![Map::<Seq<char>, V>::empty()] + outer, name, value).drop_first(),
            name,
        ) == lookup_in(outer, name),
{
    law_block_definitions_vanish(outer, name, value);
}

/// An assignment made inside a block to a name of an outer scope outlives
/// the block: leaving the fresh inner scope gives the outer scopes with the
/// assignment made.
pub proof fn law_block_assignment_persists<V>(
    outer: Seq<Map<Seq<char>, V>>,
    name: Seq<char>,
    value: V,
)
    ensures
        assign_in(seq![Map::<Seq<char>, V>::empty()] + outer, name, value).drop_first()
            == assign_in(outer, name, value),
{
    let inner = seq![Map::<Seq<char>, V>::empty()] + outer;
    assert(inner.drop_first() =~= outer);
    assert(!inner[0].contains_key(name));
    match binding_scope(outer, name) {
        Some(k) => {
            lemma_binding_scope(outer, name);
            assert(binding_scope(inner, name) == Some(k + 1));
            assert(assign_in(inner, name, value).drop_first() =~= assign_in(outer, name, value));
        },
        None => {
            assert(binding_scope(inner, name) is None);
        },
    }
}

} // verus!
