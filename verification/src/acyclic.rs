//! Bindings without cycles: every type resolves under them, and unification keeps them so.
//! This is what the occurs check is for.
use vstd::prelude::*;
use crate::cache::Binding;
use crate::closure::{alike, lemma_resolve_monotonic, resolve, resolve_each, without_varargs};
use crate::occurs_check::{lemma_occurs_complete, mentions};
use crate::soundness::{environment, lemma_unification_sound};
use crate::types::{Term, TypeVariableId};
use crate::unify::{find, follow, occurs_in, unify_all, unify_terms, unify_variable, Pending};

verus! {

/// Does the type resolve under the bindings, given fuel enough?
pub open spec fn resolves(t: Term, env: Map<TypeVariableId, Term>) -> bool {
    exists|fuel: nat| resolve(t, env, fuel) is Some
}

/// Are the bindings free of cycles: does every type resolve under them?
pub open spec fn acyclic(env: Map<TypeVariableId, Term>) -> bool {
    forall|t: Term| #[trigger] resolves(t, env)
}

/// A binding for a variable that does not occur in what a type resolves to does not change
/// what the type resolves to.
pub proof fn lemma_resolve_unaffected(t: Term, env: Map<TypeVariableId, Term>, id: TypeVariableId, x: Term, fuel: nat)
    requires
        !env.contains_key(id),
        resolve(t, env, fuel) is Some,
        !mentions(resolve(t, env, fuel).unwrap(), id),
    ensures
        resolve(t, env.insert(id, x), fuel) == resolve(t, env, fuel),
    decreases fuel, 1nat,
{
    let more = env.insert(id, x);
    match t {
        Term::Primitive(_) => {},
        Term::UserDefined(_) => {},
        Term::TypeVariable(v) => {
            if env.contains_key(v) {
                lemma_resolve_unaffected(env[v], env, id, x, (fuel - 1) as nat);
            }
        },
        Term::Ref(v) => {
            if env.contains_key(v) {
                lemma_resolve_unaffected(env[v], env, id, x, (fuel - 1) as nat);
            }
        },
        Term::Function(parameters, return_type, environment, is_varargs) => {
            let f = (fuel - 1) as nat;
            let ps = resolve_each(parameters, env, f).unwrap();
            let whole = Term::Function(
                ps,
                Box::new(resolve(*return_type, env, f).unwrap()),
                Box::new(resolve(*environment, env, f).unwrap()),
                is_varargs,
            );
            assert(resolve(t, env, fuel) == Some(whole));
            assert forall|i: int| 0 <= i < parameters.len() implies !mentions(
                resolve(#[trigger] parameters[i], env, f).unwrap(),
                id,
            ) by {
                assert(ps[i] == resolve(parameters[i], env, f).unwrap());
                if mentions(ps[i], id) {
                    assert(0 <= i < ps.len());
                    assert(whole matches Term::Function(found, _, _, _) && found == ps && mentions(found[i], id));
                    assert(mentions(whole, id));
                }
            }
            lemma_resolve_each_unaffected(parameters, env, id, x, f);
            lemma_resolve_unaffected(*return_type, env, id, x, f);
            lemma_resolve_unaffected(*environment, env, id, x, f);
        },
        Term::TypeApplication(constructor, args) => {
            let f = (fuel - 1) as nat;
            let xs = resolve_each(args, env, f).unwrap();
            let whole = Term::TypeApplication(Box::new(resolve(*constructor, env, f).unwrap()), xs);
            assert(resolve(t, env, fuel) == Some(whole));
            assert forall|i: int| 0 <= i < args.len() implies !mentions(
                resolve(#[trigger] args[i], env, f).unwrap(),
                id,
            ) by {
                assert(xs[i] == resolve(args[i], env, f).unwrap());
                if mentions(xs[i], id) {
                    assert(0 <= i < xs.len());
                    assert(whole matches Term::TypeApplication(_, found) && found == xs && mentions(found[i], id));
                    assert(mentions(whole, id));
                }
            }
            lemma_resolve_unaffected(*constructor, env, id, x, f);
            lemma_resolve_each_unaffected(args, env, id, x, f);
        },
    }
}

/// [`lemma_resolve_unaffected`] for each type of a list.
pub proof fn lemma_resolve_each_unaffected(
    types: Seq<Term>,
    env: Map<TypeVariableId, Term>,
    id: TypeVariableId,
    x: Term,
    fuel: nat,
)
    requires
        !env.contains_key(id),
        resolve_each(types, env, fuel) is Some,
        forall|i: int| 0 <= i < types.len() ==> !mentions(resolve(#[trigger] types[i], env, fuel).unwrap(), id),
    ensures
        resolve_each(types, env.insert(id, x), fuel) == resolve_each(types, env, fuel),
    decreases fuel, 2nat,
{
    let more = env.insert(id, x);
    assert forall|i: int| 0 <= i < types.len() implies resolve(#[trigger] types[i], more, fuel) == resolve(
        types[i],
        env,
        fuel,
    ) by {
        assert(resolve(types[i], env, fuel) is Some);
        lemma_resolve_unaffected(types[i], env, id, x, fuel);
    }
    assert(resolve_each(types, more, fuel).unwrap() =~= resolve_each(types, env, fuel).unwrap());
}

/// A type that resolves under bindings resolves as well once a variable that they leave
/// unbound is bound to a type in which, once resolved, the variable does not occur.
pub proof fn lemma_resolves_with_binding(
    s: Term,
    env: Map<TypeVariableId, Term>,
    id: TypeVariableId,
    x: Term,
    f: nat,
    fx: nat,
)
    requires
        !env.contains_key(id),
        resolve(s, env, f) is Some,
        resolve(x, env, fx) is Some,
        !mentions(resolve(x, env, fx).unwrap(), id),
    ensures
        resolve(s, env.insert(id, x), f + fx + 1) is Some,
    decreases f, 1nat,
{
    let more = env.insert(id, x);
    let fuel = f + fx + 1;
    match s {
        Term::Primitive(_) => {},
        Term::UserDefined(_) => {},
        Term::TypeVariable(v) => {
            lemma_variable_resolves_with_binding(v, env, id, x, f, fx);
        },
        Term::Ref(v) => {
            lemma_variable_resolves_with_binding(v, env, id, x, f, fx);
        },
        Term::Function(parameters, return_type, environment, _) => {
            let g = (f - 1) as nat;
            lemma_each_resolves_with_binding(parameters, env, id, x, g, fx);
            lemma_resolves_with_binding(*return_type, env, id, x, g, fx);
            lemma_resolves_with_binding(*environment, env, id, x, g, fx);
        },
        Term::TypeApplication(constructor, args) => {
            let g = (f - 1) as nat;
            lemma_resolves_with_binding(*constructor, env, id, x, g, fx);
            lemma_each_resolves_with_binding(args, env, id, x, g, fx);
        },
    }
}

proof fn lemma_variable_resolves_with_binding(
    v: TypeVariableId,
    env: Map<TypeVariableId, Term>,
    id: TypeVariableId,
    x: Term,
    f: nat,
    fx: nat,
)
    requires
        !env.contains_key(id),
        env.contains_key(v) ==> f > 0 && resolve(env[v], env, (f - 1) as nat) is Some,
        resolve(x, env, fx) is Some,
        !mentions(resolve(x, env, fx).unwrap(), id),
    ensures
        env.insert(id, x).contains_key(v) ==> resolve(env.insert(id, x)[v], env.insert(id, x), f + fx) is Some,
    decreases f, 0nat,
{
    let more = env.insert(id, x);
    if v == id {
        lemma_resolve_unaffected(x, env, id, x, fx);
        lemma_resolve_monotonic(x, more, fx, f + fx);
    } else if env.contains_key(v) {
        lemma_resolves_with_binding(env[v], env, id, x, (f - 1) as nat, fx);
    }
}

/// [`lemma_resolves_with_binding`] for each type of a list.
pub proof fn lemma_each_resolves_with_binding(
    types: Seq<Term>,
    env: Map<TypeVariableId, Term>,
    id: TypeVariableId,
    x: Term,
    f: nat,
    fx: nat,
)
    requires
        !env.contains_key(id),
        resolve_each(types, env, f) is Some,
        resolve(x, env, fx) is Some,
        !mentions(resolve(x, env, fx).unwrap(), id),
    ensures
        resolve_each(types, env.insert(id, x), f + fx + 1) is Some,
    decreases f, 2nat,
{
    assert forall|i: int| 0 <= i < types.len() implies resolve(
        #[trigger] types[i],
        env.insert(id, x),
        f + fx + 1,
    ) is Some by {
        assert(resolve(types[i], env, f) is Some);
        lemma_resolves_with_binding(types[i], env, id, x, f, fx);
    }
}

/// Bindings stay free of cycles when a variable that they leave unbound is bound to a type
/// in which, once resolved, the variable does not occur.
pub proof fn lemma_binding_keeps_acyclic(env: Map<TypeVariableId, Term>, id: TypeVariableId, x: Term)
    requires
        acyclic(env),
        !env.contains_key(id),
        forall|f: nat| resolve(x, env, f) is Some ==> !mentions(#[trigger] resolve(x, env, f).unwrap(), id),
    ensures
        acyclic(env.insert(id, x)),
{
    assert forall|s: Term| #[trigger] resolves(s, env.insert(id, x)) by {
        assert(resolves(s, env));
        assert(resolves(x, env));
        let f = choose|f: nat| resolve(s, env, f) is Some;
        let fx = choose|fx: nat| resolve(x, env, fx) is Some;
        lemma_resolves_with_binding(s, env, id, x, f, fx);
    }
}

/// Unification keeps the bindings free of cycles: whatever its outcome, every type
/// resolves under the bindings it leaves if every type did under those it was given.
pub proof fn lemma_unify_keeps_acyclic(t1: Term, t2: Term, p: Pending, store: Seq<Binding>, fuel: nat)
    requires
        acyclic(environment(p.bindings, store)),
    ensures
        acyclic(environment(unify_terms(t1, t2, p, store, fuel).1.bindings, store)),
    decreases fuel, 1nat, 0nat,
{
    if t1 is Primitive && t2 is Primitive && t1->Primitive_0 == t2->Primitive_0 {
    } else if t1 is UserDefined && t2 is UserDefined && t1->UserDefined_0 == t2->UserDefined_0 {
    } else if let Term::TypeVariable(id) = t1 {
        lemma_unify_variable_keeps_acyclic(id, t1, t2, p, store, fuel);
    } else if let Term::TypeVariable(id) = t2 {
        lemma_unify_variable_keeps_acyclic(id, t2, t1, p, store, fuel);
    } else {
        match (t1, t2) {
            (
                Term::Function(parameters1, return1, environment1, _),
                Term::Function(parameters2, return2, environment2, _),
            ) => {
                if fuel > 0 {
                    let f = (fuel - 1) as nat;
                    let p1 = unify_all(parameters1, parameters2, p, store, f).1;
                    lemma_unify_all_keeps_acyclic(parameters1, parameters2, p, store, f);
                    let p2 = unify_terms(*return1, *return2, p1, store, f).1;
                    lemma_unify_keeps_acyclic(*return1, *return2, p1, store, f);
                    lemma_unify_keeps_acyclic(*environment1, *environment2, p2, store, f);
                }
            },
            (Term::TypeApplication(constructor1, args1), Term::TypeApplication(constructor2, args2)) => {
                if fuel > 0 {
                    let f = (fuel - 1) as nat;
                    let p1 = unify_terms(*constructor1, *constructor2, p, store, f).1;
                    lemma_unify_keeps_acyclic(*constructor1, *constructor2, p, store, f);
                    lemma_unify_all_keeps_acyclic(args1, args2, p1, store, f);
                }
            },
            (Term::Ref(lifetime), Term::Ref(_)) => {
                lemma_unify_variable_keeps_acyclic(lifetime, t1, t2, p, store, fuel);
            },
            _ => {},
        }
    }
}

/// [`lemma_unify_keeps_acyclic`] for the unification of a variable.
pub proof fn lemma_unify_variable_keeps_acyclic(
    id: TypeVariableId,
    a: Term,
    b: Term,
    p: Pending,
    store: Seq<Binding>,
    fuel: nat,
)
    requires
        acyclic(environment(p.bindings, store)),
    ensures
        acyclic(environment(unify_variable(id, a, b, p, store, fuel).1.bindings, store)),
    decreases fuel, 0nat, 0nat,
{
    let env = environment(p.bindings, store);
    match find(id, p.bindings, store) {
        None => {},
        Some(Binding::Bound(bound)) => {
            if fuel > 0 {
                lemma_unify_keeps_acyclic(bound, b, p, store, (fuel - 1) as nat);
            }
        },
        Some(Binding::Unbound(level, _)) => {
            match follow(b, p.bindings, store, fuel) {
                Err(_) => {},
                Ok(target) => {
                    if a != target {
                        match occurs_in(id, level, target, p.bindings, store, fuel) {
                            Ok((false, _)) => {
                                let q = unify_variable(id, a, b, p, store, fuel).1;
                                assert(q.bindings == p.bindings.insert(id, target));
                                assert(environment(q.bindings, store) =~= env.insert(id, target));
                                assert forall|f: nat| resolve(target, env, f) is Some implies !mentions(
                                    #[trigger] resolve(target, env, f).unwrap(),
                                    id,
                                ) by {
                                    lemma_occurs_complete(id, level, target, p.bindings, store, fuel, f);
                                }
                                lemma_binding_keeps_acyclic(env, id, target);
                            },
                            _ => {},
                        }
                    }
                },
            }
        },
    }
}

/// [`lemma_unify_keeps_acyclic`] for the unification of two lists.
pub proof fn lemma_unify_all_keeps_acyclic(
    types1: Seq<Term>,
    types2: Seq<Term>,
    p: Pending,
    store: Seq<Binding>,
    fuel: nat,
)
    requires
        acyclic(environment(p.bindings, store)),
    ensures
        acyclic(environment(unify_all(types1, types2, p, store, fuel).1.bindings, store)),
    decreases fuel, 2nat, types1.len(),
{
    if types1.len() == 0 || types2.len() == 0 {
    } else {
        let (first, p1) = unify_terms(types1[0], types2[0], p, store, fuel);
        lemma_unify_keeps_acyclic(types1[0], types2[0], p, store, fuel);
        if first is Ok {
            lemma_unify_all_keeps_acyclic(types1.drop_first(), types2.drop_first(), p1, store, fuel);
        }
    }
}

/// Soundness of unification on bindings free of cycles. Let the bindings be free of
/// cycles, and let unification of `t1` with `t2` succeed. Then both types resolve under
/// the bindings it returns together with those of the table, and what they resolve to is
/// alike; where neither holds a variadic function type, it is one and the same type.
pub proof fn lemma_unification_sound_where_acyclic(t1: Term, t2: Term, p: Pending, store: Seq<Binding>, fuel: nat)
    requires
        acyclic(environment(p.bindings, store)),
        unify_terms(t1, t2, p, store, fuel).0 is Ok,
    ensures
        acyclic(environment(unify_terms(t1, t2, p, store, fuel).1.bindings, store)),
        ({
            let env = environment(unify_terms(t1, t2, p, store, fuel).1.bindings, store);
            exists|fuel1: nat, fuel2: nat|
                {
                    &&& #[trigger] resolve(t1, env, fuel1) is Some
                    &&& #[trigger] resolve(t2, env, fuel2) is Some
                    &&& alike(resolve(t1, env, fuel1).unwrap(), resolve(t2, env, fuel2).unwrap())
                    &&& without_varargs(resolve(t1, env, fuel1).unwrap()) && without_varargs(
                        resolve(t2, env, fuel2).unwrap(),
                    ) ==> resolve(t1, env, fuel1) == resolve(t2, env, fuel2)
                }
        }),
{
    lemma_unify_keeps_acyclic(t1, t2, p, store, fuel);
    let env = environment(unify_terms(t1, t2, p, store, fuel).1.bindings, store);
    assert(resolves(t1, env));
    assert(resolves(t2, env));
    let fuel1 = choose|f: nat| resolve(t1, env, f) is Some;
    let fuel2 = choose|f: nat| resolve(t2, env, f) is Some;
    lemma_unification_sound(t1, t2, p, store, fuel, fuel1, fuel2);
}

} // verus!
