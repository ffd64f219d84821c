//! The occurs check: unification never binds a variable to a type that contains it.
use vstd::prelude::*;
use crate::cache::Binding;
use crate::closure::{resolve, resolve_each};
use crate::error::Fault;
use crate::soundness::{environment, lemma_follow_resolves};
use crate::types::{LetBindingLevel, Term, TypeVariableId};
use crate::unify::{
    chain, find, follow, occurs_in, occurs_in_all, occurs_in_variable, unify_terms, unify_variable,
    Occurrence, Pending,
};

verus! {

/// Does the variable occur in the type as it is written, as a type variable or as the
/// lifetime of a reference?
pub open spec fn mentions(t: Term, id: TypeVariableId) -> bool
    decreases t,
{
    match t {
        Term::Primitive(_) => false,
        Term::UserDefined(_) => false,
        Term::TypeVariable(v) => v == id,
        Term::Ref(v) => v == id,
        Term::Function(parameters, return_type, environment, _) => {
            ||| exists|i: int| 0 <= i < parameters.len() && mentions(#[trigger] parameters[i], id)
            ||| mentions(*return_type, id)
            ||| mentions(*environment, id)
        },
        Term::TypeApplication(constructor, args) => {
            ||| mentions(*constructor, id)
            ||| exists|i: int| 0 <= i < args.len() && mentions(#[trigger] args[i], id)
        },
    }
}

/// A chain of checks finds nothing only if each of them finds nothing.
proof fn lemma_chain_not_found(first: Result<Occurrence, Fault>, second: Result<Occurrence, Fault>)
    requires
        chain(first, second) matches Ok((found, _)) && !found,
    ensures
        first matches Ok((found, _)) && !found,
        second matches Ok((found, _)) && !found,
{
}

/// Where the occurs check finds nothing, the variable does not occur in what the type
/// resolves to.
pub proof fn lemma_occurs_complete(
    id: TypeVariableId,
    level: LetBindingLevel,
    t: Term,
    pending: Map<TypeVariableId, Term>,
    store: Seq<Binding>,
    fuel: nat,
    f: nat,
)
    requires
        occurs_in(id, level, t, pending, store, fuel) matches Ok((found, _)) && !found,
        resolve(t, environment(pending, store), f) is Some,
    ensures
        !mentions(resolve(t, environment(pending, store), f).unwrap(), id),
    decreases fuel, 1nat, 0nat,
{
    let env = environment(pending, store);
    match t {
        Term::Primitive(_) => {},
        Term::UserDefined(_) => {},
        Term::TypeVariable(v) => {
            lemma_occurs_variable_complete(id, level, v, pending, store, fuel, f, t);
        },
        Term::Ref(v) => {
            lemma_occurs_variable_complete(id, level, v, pending, store, fuel, f, t);
        },
        Term::Function(parameters, return_type, environment, _) => {
            let g = (fuel - 1) as nat;
            let h = (f - 1) as nat;
            let inner = chain(
                occurs_in(id, level, *environment, pending, store, g),
                occurs_in_all(id, level, parameters, pending, store, g),
            );
            lemma_chain_not_found(occurs_in(id, level, *return_type, pending, store, g), inner);
            lemma_chain_not_found(
                occurs_in(id, level, *environment, pending, store, g),
                occurs_in_all(id, level, parameters, pending, store, g),
            );
            lemma_occurs_complete(id, level, *return_type, pending, store, g, h);
            lemma_occurs_complete(id, level, *environment, pending, store, g, h);
            lemma_occurs_all_complete(id, level, parameters, pending, store, g, h);
        },
        Term::TypeApplication(constructor, args) => {
            let g = (fuel - 1) as nat;
            let h = (f - 1) as nat;
            lemma_chain_not_found(
                occurs_in(id, level, *constructor, pending, store, g),
                occurs_in_all(id, level, args, pending, store, g),
            );
            lemma_occurs_complete(id, level, *constructor, pending, store, g, h);
            lemma_occurs_all_complete(id, level, args, pending, store, g, h);
        },
    }
}

proof fn lemma_occurs_variable_complete(
    id: TypeVariableId,
    level: LetBindingLevel,
    v: TypeVariableId,
    pending: Map<TypeVariableId, Term>,
    store: Seq<Binding>,
    fuel: nat,
    f: nat,
    t: Term,
)
    requires
        t == Term::TypeVariable(v) || t == Term::Ref(v),
        occurs_in_variable(id, level, v, pending, store, fuel) matches Ok((found, _)) && !found,
        resolve(t, environment(pending, store), f) is Some,
    ensures
        !mentions(resolve(t, environment(pending, store), f).unwrap(), id),
    decreases fuel, 0nat, 0nat,
{
    let env = environment(pending, store);
    match find(v, pending, store) {
        Some(Binding::Bound(next)) => {
            assert(env.contains_key(v) && env[v] == next);
            lemma_occurs_complete(id, level, next, pending, store, (fuel - 1) as nat, (f - 1) as nat);
        },
        _ => {
            assert(!env.contains_key(v));
        },
    }
}

proof fn lemma_occurs_all_complete(
    id: TypeVariableId,
    level: LetBindingLevel,
    types: Seq<Term>,
    pending: Map<TypeVariableId, Term>,
    store: Seq<Binding>,
    fuel: nat,
    f: nat,
)
    requires
        occurs_in_all(id, level, types, pending, store, fuel) matches Ok((found, _)) && !found,
        resolve_each(types, environment(pending, store), f) is Some,
    ensures
        forall|i: int|
            0 <= i < types.len() ==> !mentions(
                #[trigger] resolve_each(types, environment(pending, store), f).unwrap()[i],
                id,
            ),
    decreases fuel, 2nat, types.len(),
{
    let env = environment(pending, store);
    if types.len() > 0 {
        let rest = types.drop_first();
        lemma_chain_not_found(
            occurs_in(id, level, types[0], pending, store, fuel),
            occurs_in_all(id, level, rest, pending, store, fuel),
        );
        assert(resolve(types[0], env, f) is Some);
        lemma_occurs_complete(id, level, types[0], pending, store, fuel, f);
        assert forall|i: int| 0 <= i < rest.len() implies resolve(#[trigger] rest[i], env, f) is Some by {
            assert(rest[i] == types[i + 1]);
            assert(resolve(types[i + 1], env, f) is Some);
        }
        lemma_occurs_all_complete(id, level, rest, pending, store, fuel, f);
        assert forall|i: int| 0 <= i < types.len() implies !mentions(
            #[trigger] resolve_each(types, env, f).unwrap()[i],
            id,
        ) by {
            if i > 0 {
                assert(types[i] == rest[i - 1]);
                assert(resolve_each(types, env, f).unwrap()[i] == resolve_each(rest, env, f).unwrap()[i - 1]);
            }
        }
    }
}

/// The occurs check. Let the variable `id` be unbound, and let it occur in what the type
/// `t` resolves to, which is not the variable itself. Then unifying the variable with `t`
/// fails.
pub proof fn lemma_occurs_check(id: TypeVariableId, t: Term, p: Pending, store: Seq<Binding>, fuel: nat, f: nat)
    requires
        find(id, p.bindings, store) matches Some(Binding::Unbound(_, _)),
        resolve(t, environment(p.bindings, store), f) is Some,
        mentions(resolve(t, environment(p.bindings, store), f).unwrap(), id),
        resolve(t, environment(p.bindings, store), f).unwrap() != Term::TypeVariable(id),
    ensures
        unify_terms(Term::TypeVariable(id), t, p, store, fuel).0 is Err,
        unify_terms(Term::TypeVariable(id), t, p, store, fuel).1 == p,
{
    let a = Term::TypeVariable(id);
    let env = environment(p.bindings, store);
    let level = find(id, p.bindings, store).unwrap()->Unbound_0;
    assert(unify_terms(a, t, p, store, fuel) == unify_variable(id, a, t, p, store, fuel));
    assert(!env.contains_key(id));
    if let Ok(target) = follow(t, p.bindings, store, fuel) {
        lemma_follow_resolves(t, p.bindings, store, fuel, env, f);
        if a == target {
            assert(resolve(a, env, f) == Some(a));
        } else {
            if let Ok((found, _)) = occurs_in(id, level, target, p.bindings, store, fuel) {
                if !found {
                    lemma_occurs_complete(id, level, target, p.bindings, store, fuel, f);
                }
            }
        }
    }
}

} // verus!
