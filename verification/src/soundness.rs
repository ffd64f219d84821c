//! Unification is sound: under the bindings it returns, the two types are the same.
use vstd::prelude::*;
use crate::cache::Binding;
use crate::closure::{
    alike, lemma_alike_reflexive, lemma_alike_symmetric, lemma_alike_without_varargs,
    lemma_resolve_monotonic, lemma_resolve_unique, resolve, resolve_each, without_varargs,
};
use crate::extension::{
    extends, lemma_unify_all_extends, lemma_unify_extends, lemma_unify_variable_extends,
};
use crate::types::{Term, TypeVariableId};
use crate::unify::{find, follow, unify_all, unify_terms, unify_variable, Pending};

verus! {

/// The binding of every variable that the table or the pending bindings bind.
pub open spec fn environment(pending: Map<TypeVariableId, Term>, store: Seq<Binding>) -> Map<
    TypeVariableId,
    Term,
> {
    Map::new(
        |id: TypeVariableId| find(id, pending, store) matches Some(Binding::Bound(_)),
        |id: TypeVariableId| find(id, pending, store).unwrap()->Bound_0,
    )
}

/// Does `bigger` bind every variable that `env` binds, and to the same type?
pub open spec fn includes(bigger: Map<TypeVariableId, Term>, env: Map<TypeVariableId, Term>) -> bool {
    forall|id: TypeVariableId| #[trigger] env.contains_key(id) ==> bigger.contains_key(id) && bigger[id] == env[id]
}

/// Bindings that extend others bind every variable that those bind.
pub proof fn lemma_environment_grows(p: Pending, q: Pending, store: Seq<Binding>)
    requires
        extends(p, q, store),
    ensures
        includes(environment(q.bindings, store), environment(p.bindings, store)),
{
    assert forall|id: TypeVariableId| #[trigger]
        environment(p.bindings, store).contains_key(id) implies environment(q.bindings, store).contains_key(
        id,
    ) && environment(q.bindings, store)[id] == environment(p.bindings, store)[id] by {
        if p.bindings.contains_key(id) {
            assert(q.bindings.contains_key(id));
        } else if q.bindings.contains_key(id) {
            assert(store[id as int] is Unbound);
        }
    }
}

/// What a type resolves to under more bindings is what it resolves to under fewer, resolved
/// under the more.
pub proof fn lemma_resolve_factors(
    t: Term,
    env: Map<TypeVariableId, Term>,
    bigger: Map<TypeVariableId, Term>,
    fuel: nat,
)
    requires
        includes(bigger, env),
        resolve(t, bigger, fuel) is Some,
    ensures
        resolve(t, env, fuel) is Some,
        resolve(resolve(t, env, fuel).unwrap(), bigger, fuel) == resolve(t, bigger, fuel),
    decreases fuel, 1nat,
{
    match t {
        Term::Primitive(_) => {},
        Term::UserDefined(_) => {},
        Term::TypeVariable(id) => {
            if env.contains_key(id) {
                lemma_resolve_factors(env[id], env, bigger, (fuel - 1) as nat);
                lemma_resolve_monotonic(
                    resolve(env[id], env, (fuel - 1) as nat).unwrap(),
                    bigger,
                    (fuel - 1) as nat,
                    fuel,
                );
            }
        },
        Term::Ref(id) => {
            if env.contains_key(id) {
                lemma_resolve_factors(env[id], env, bigger, (fuel - 1) as nat);
                lemma_resolve_monotonic(
                    resolve(env[id], env, (fuel - 1) as nat).unwrap(),
                    bigger,
                    (fuel - 1) as nat,
                    fuel,
                );
            }
        },
        Term::Function(parameters, return_type, environment, _) => {
            let f = (fuel - 1) as nat;
            lemma_resolve_each_factors(parameters, env, bigger, f);
            lemma_resolve_factors(*return_type, env, bigger, f);
            lemma_resolve_factors(*environment, env, bigger, f);
        },
        Term::TypeApplication(constructor, args) => {
            let f = (fuel - 1) as nat;
            lemma_resolve_factors(*constructor, env, bigger, f);
            lemma_resolve_each_factors(args, env, bigger, f);
        },
    }
}

pub proof fn lemma_resolve_each_factors(
    types: Seq<Term>,
    env: Map<TypeVariableId, Term>,
    bigger: Map<TypeVariableId, Term>,
    fuel: nat,
)
    requires
        includes(bigger, env),
        resolve_each(types, bigger, fuel) is Some,
    ensures
        resolve_each(types, env, fuel) is Some,
        resolve_each(resolve_each(types, env, fuel).unwrap(), bigger, fuel) == resolve_each(types, bigger, fuel),
    decreases fuel, 2nat,
{
    assert forall|i: int| 0 <= i < types.len() implies resolve(#[trigger] types[i], env, fuel) is Some
        && resolve(resolve(types[i], env, fuel).unwrap(), bigger, fuel) == resolve(types[i], bigger, fuel) by {
        assert(resolve(types[i], bigger, fuel) is Some);
        lemma_resolve_factors(types[i], env, bigger, fuel);
    }
    let under = resolve_each(types, env, fuel).unwrap();
    assert forall|i: int| 0 <= i < under.len() implies resolve(#[trigger] under[i], bigger, fuel) is Some by {
        assert(resolve(types[i], env, fuel) is Some);
        assert(resolve(types[i], bigger, fuel) is Some);
    }
    assert(resolve_each(under, bigger, fuel).unwrap() =~= resolve_each(types, bigger, fuel).unwrap()) by {
        assert forall|i: int| 0 <= i < types.len() implies resolve_each(under, bigger, fuel).unwrap()[i]
            == resolve_each(types, bigger, fuel).unwrap()[i] by {
            assert(resolve(types[i], env, fuel) is Some);
        }
    }
}

/// Types that are alike resolve to types that are alike.
pub proof fn lemma_resolve_preserves_alike(
    a: Term,
    b: Term,
    env: Map<TypeVariableId, Term>,
    fuel1: nat,
    fuel2: nat,
)
    requires
        alike(a, b),
        resolve(a, env, fuel1) is Some,
        resolve(b, env, fuel2) is Some,
    ensures
        alike(resolve(a, env, fuel1).unwrap(), resolve(b, env, fuel2).unwrap()),
    decreases a,
{
    match (a, b) {
        (Term::Function(ps1, r1, e1, v1), Term::Function(ps2, r2, e2, v2)) => {
            let f1 = (fuel1 - 1) as nat;
            let f2 = (fuel2 - 1) as nat;
            let qs1 = resolve_each(ps1, env, f1).unwrap();
            let qs2 = resolve_each(ps2, env, f2).unwrap();
            assert forall|i: int| 0 <= i < qs1.len() && i < qs2.len() implies alike(#[trigger] qs1[i], qs2[i]) by {
                assert(alike(ps1[i], ps2[i]));
                assert(resolve(ps1[i], env, f1) is Some);
                assert(resolve(ps2[i], env, f2) is Some);
                lemma_resolve_preserves_alike(ps1[i], ps2[i], env, f1, f2);
            }
            lemma_resolve_preserves_alike(*r1, *r2, env, f1, f2);
            lemma_resolve_preserves_alike(*e1, *e2, env, f1, f2);
        },
        (Term::TypeApplication(c1, xs1), Term::TypeApplication(c2, xs2)) => {
            let f1 = (fuel1 - 1) as nat;
            let f2 = (fuel2 - 1) as nat;
            let ys1 = resolve_each(xs1, env, f1).unwrap();
            let ys2 = resolve_each(xs2, env, f2).unwrap();
            lemma_resolve_preserves_alike(*c1, *c2, env, f1, f2);
            assert forall|i: int| 0 <= i < ys1.len() implies alike(#[trigger] ys1[i], ys2[i]) by {
                assert(alike(xs1[i], xs2[i]));
                assert(resolve(xs1[i], env, f1) is Some);
                assert(resolve(xs2[i], env, f2) is Some);
                lemma_resolve_preserves_alike(xs1[i], xs2[i], env, f1, f2);
            }
        },
        _ => {
            lemma_resolve_unique(a, env, fuel1, fuel2);
            lemma_alike_reflexive(resolve(a, env, fuel1).unwrap());
        },
    }
}

/// Do the two types resolve to types that are alike, whenever they resolve?
pub open spec fn agree(t1: Term, t2: Term, env: Map<TypeVariableId, Term>) -> bool {
    forall|fuel1: nat, fuel2: nat|
        (#[trigger] resolve(t1, env, fuel1)) is Some && (#[trigger] resolve(t2, env, fuel2)) is Some ==> alike(
            resolve(t1, env, fuel1).unwrap(),
            resolve(t2, env, fuel2).unwrap(),
        )
}

/// Types that agree under some bindings agree under more.
pub proof fn lemma_agree_stable(t1: Term, t2: Term, env: Map<TypeVariableId, Term>, bigger: Map<TypeVariableId, Term>)
    requires
        agree(t1, t2, env),
        includes(bigger, env),
    ensures
        agree(t1, t2, bigger),
{
    assert forall|fuel1: nat, fuel2: nat|
        (#[trigger] resolve(t1, bigger, fuel1)) is Some && (#[trigger] resolve(t2, bigger, fuel2)) is Some implies alike(
        resolve(t1, bigger, fuel1).unwrap(),
        resolve(t2, bigger, fuel2).unwrap(),
    ) by {
        lemma_resolve_factors(t1, env, bigger, fuel1);
        lemma_resolve_factors(t2, env, bigger, fuel2);
        let r1 = resolve(t1, env, fuel1).unwrap();
        let r2 = resolve(t2, env, fuel2).unwrap();
        assert(alike(r1, r2));
        lemma_resolve_preserves_alike(r1, r2, bigger, fuel1, fuel2);
    }
}

pub proof fn lemma_agree_symmetric(t1: Term, t2: Term, env: Map<TypeVariableId, Term>)
    requires
        agree(t1, t2, env),
    ensures
        agree(t2, t1, env),
{
    assert forall|fuel1: nat, fuel2: nat|
        (#[trigger] resolve(t2, env, fuel1)) is Some && (#[trigger] resolve(t1, env, fuel2)) is Some implies alike(
        resolve(t2, env, fuel1).unwrap(),
        resolve(t1, env, fuel2).unwrap(),
    ) by {
        lemma_alike_symmetric(resolve(t1, env, fuel2).unwrap(), resolve(t2, env, fuel1).unwrap());
    }
}

/// A type resolves to what the end of its chain of bindings resolves to.
pub proof fn lemma_follow_resolves(
    b: Term,
    pending: Map<TypeVariableId, Term>,
    store: Seq<Binding>,
    fuel: nat,
    bigger: Map<TypeVariableId, Term>,
    f: nat,
)
    requires
        follow(b, pending, store, fuel) is Ok,
        includes(bigger, environment(pending, store)),
        resolve(b, bigger, f) is Some,
    ensures
        resolve(follow(b, pending, store, fuel)->Ok_0, bigger, f) == resolve(b, bigger, f),
    decreases fuel,
{
    let env = environment(pending, store);
    match b {
        Term::TypeVariable(id) => {
            if let Some(Binding::Bound(next)) = find(id, pending, store) {
                assert(env.contains_key(id) && env[id] == next);
                assert(bigger.contains_key(id) && bigger[id] == next);
                lemma_follow_resolves(next, pending, store, (fuel - 1) as nat, bigger, (f - 1) as nat);
                lemma_resolve_monotonic(
                    follow(b, pending, store, fuel)->Ok_0,
                    bigger,
                    (f - 1) as nat,
                    f,
                );
            }
        },
        Term::Ref(id) => {
            if let Some(Binding::Bound(next)) = find(id, pending, store) {
                assert(env.contains_key(id) && env[id] == next);
                assert(bigger.contains_key(id) && bigger[id] == next);
                lemma_follow_resolves(next, pending, store, (fuel - 1) as nat, bigger, (f - 1) as nat);
                lemma_resolve_monotonic(
                    follow(b, pending, store, fuel)->Ok_0,
                    bigger,
                    (f - 1) as nat,
                    f,
                );
            }
        },
        _ => {},
    }
}

/// Do the two lists agree position by position, as far as the shorter reaches?
pub open spec fn agree_pairwise(types1: Seq<Term>, types2: Seq<Term>, env: Map<TypeVariableId, Term>) -> bool {
    forall|i: int| 0 <= i < types1.len() && i < types2.len() ==> agree(#[trigger] types1[i], types2[i], env)
}

/// Where unification succeeds, the two types resolve, under the bindings it returns
/// together with those of the table, to types that are alike.
pub proof fn lemma_unify_sound(t1: Term, t2: Term, p: Pending, store: Seq<Binding>, fuel: nat)
    requires
        unify_terms(t1, t2, p, store, fuel).0 is Ok,
    ensures
        agree(t1, t2, environment(unify_terms(t1, t2, p, store, fuel).1.bindings, store)),
    decreases fuel, 1nat, 0nat,
{
    let q = unify_terms(t1, t2, p, store, fuel).1;
    let env = environment(q.bindings, store);
    if t1 is Primitive && t2 is Primitive && t1->Primitive_0 == t2->Primitive_0 {
        lemma_agree_same(t1, env);
    } else if t1 is UserDefined && t2 is UserDefined && t1->UserDefined_0 == t2->UserDefined_0 {
        lemma_agree_same(t1, env);
    } else if let Term::TypeVariable(id) = t1 {
        lemma_unify_variable_sound(id, t1, t2, p, store, fuel);
    } else if let Term::TypeVariable(id) = t2 {
        lemma_unify_variable_sound(id, t2, t1, p, store, fuel);
        lemma_agree_symmetric(t2, t1, env);
    } else {
        match (t1, t2) {
            (
                Term::Function(parameters1, return1, environment1, is_varargs1),
                Term::Function(parameters2, return2, environment2, is_varargs2),
            ) => {
                let f = (fuel - 1) as nat;
                let (first, p1) = unify_all(parameters1, parameters2, p, store, f);
                let (second, p2) = unify_terms(*return1, *return2, p1, store, f);
                let (third, p3) = unify_terms(*environment1, *environment2, p2, store, f);
                lemma_unify_all_sound(parameters1, parameters2, p, store, f);
                lemma_unify_sound(*return1, *return2, p1, store, f);
                lemma_unify_sound(*environment1, *environment2, p2, store, f);
                lemma_unify_extends(*return1, *return2, p1, store, f);
                lemma_unify_extends(*environment1, *environment2, p2, store, f);
                crate::extension::lemma_extends_transitive(p1, p2, p3, store);
                lemma_environment_grows(p1, p3, store);
                lemma_environment_grows(p2, p3, store);
                let env1 = environment(p1.bindings, store);
                let env2 = environment(p2.bindings, store);
                assert forall|i: int| 0 <= i < parameters1.len() && i < parameters2.len() implies agree(
                    #[trigger] parameters1[i],
                    parameters2[i],
                    env,
                ) by {
                    lemma_agree_stable(parameters1[i], parameters2[i], env1, env);
                }
                lemma_agree_stable(*return1, *return2, env2, env);
                assert forall|fuel1: nat, fuel2: nat|
                    (#[trigger] resolve(t1, env, fuel1)) is Some && (#[trigger] resolve(t2, env, fuel2)) is Some implies alike(
                    resolve(t1, env, fuel1).unwrap(),
                    resolve(t2, env, fuel2).unwrap(),
                ) by {
                    let f1 = (fuel1 - 1) as nat;
                    let f2 = (fuel2 - 1) as nat;
                    let qs1 = resolve_each(parameters1, env, f1).unwrap();
                    let qs2 = resolve_each(parameters2, env, f2).unwrap();
                    assert forall|i: int| 0 <= i < qs1.len() && i < qs2.len() implies alike(
                        #[trigger] qs1[i],
                        qs2[i],
                    ) by {
                        assert(agree(parameters1[i], parameters2[i], env));
                        assert(resolve(parameters1[i], env, f1) is Some);
                        assert(resolve(parameters2[i], env, f2) is Some);
                    }
                    assert(resolve(*return1, env, f1) is Some);
                    assert(resolve(*return2, env, f2) is Some);
                    assert(resolve(*environment1, env, f1) is Some);
                    assert(resolve(*environment2, env, f2) is Some);
                }
            },
            (Term::TypeApplication(constructor1, args1), Term::TypeApplication(constructor2, args2)) => {
                let f = (fuel - 1) as nat;
                let (first, p1) = unify_terms(*constructor1, *constructor2, p, store, f);
                let (second, p2) = unify_all(args1, args2, p1, store, f);
                lemma_unify_sound(*constructor1, *constructor2, p, store, f);
                lemma_unify_all_sound(args1, args2, p1, store, f);
                lemma_unify_all_extends(args1, args2, p1, store, f);
                lemma_environment_grows(p1, p2, store);
                let env1 = environment(p1.bindings, store);
                lemma_agree_stable(*constructor1, *constructor2, env1, env);
                assert forall|fuel1: nat, fuel2: nat|
                    (#[trigger] resolve(t1, env, fuel1)) is Some && (#[trigger] resolve(t2, env, fuel2)) is Some implies alike(
                    resolve(t1, env, fuel1).unwrap(),
                    resolve(t2, env, fuel2).unwrap(),
                ) by {
                    let f1 = (fuel1 - 1) as nat;
                    let f2 = (fuel2 - 1) as nat;
                    let ys1 = resolve_each(args1, env, f1).unwrap();
                    let ys2 = resolve_each(args2, env, f2).unwrap();
                    assert forall|i: int| 0 <= i < ys1.len() implies alike(#[trigger] ys1[i], ys2[i]) by {
                        assert(agree(args1[i], args2[i], env));
                        assert(resolve(args1[i], env, f1) is Some);
                        assert(resolve(args2[i], env, f2) is Some);
                    }
                    assert(resolve(*constructor1, env, f1) is Some);
                    assert(resolve(*constructor2, env, f2) is Some);
                }
            },
            (Term::Ref(lifetime), Term::Ref(_)) => {
                lemma_unify_variable_sound(lifetime, t1, t2, p, store, fuel);
            },
            _ => {},
        }
    }
}

/// A type agrees with itself.
pub proof fn lemma_agree_same(t: Term, env: Map<TypeVariableId, Term>)
    ensures
        agree(t, t, env),
{
    assert forall|fuel1: nat, fuel2: nat|
        (#[trigger] resolve(t, env, fuel1)) is Some && (#[trigger] resolve(t, env, fuel2)) is Some implies alike(
        resolve(t, env, fuel1).unwrap(),
        resolve(t, env, fuel2).unwrap(),
    ) by {
        lemma_resolve_unique(t, env, fuel1, fuel2);
        lemma_alike_reflexive(resolve(t, env, fuel1).unwrap());
    }
}

pub proof fn lemma_unify_variable_sound(
    id: TypeVariableId,
    a: Term,
    b: Term,
    p: Pending,
    store: Seq<Binding>,
    fuel: nat,
)
    requires
        a == Term::TypeVariable(id) || a == Term::Ref(id),
        unify_variable(id, a, b, p, store, fuel).0 is Ok,
    ensures
        agree(a, b, environment(unify_variable(id, a, b, p, store, fuel).1.bindings, store)),
    decreases fuel, 0nat, 0nat,
{
    let q = unify_variable(id, a, b, p, store, fuel).1;
    let before = environment(p.bindings, store);
    let env = environment(q.bindings, store);
    lemma_unify_variable_extends(id, a, b, p, store, fuel);
    lemma_environment_grows(p, q, store);
    match find(id, p.bindings, store) {
        None => {},
        Some(Binding::Bound(bound)) => {
            lemma_unify_sound(bound, b, p, store, (fuel - 1) as nat);
            assert(before.contains_key(id) && before[id] == bound);
            assert(env.contains_key(id) && env[id] == bound);
            assert forall|fuel1: nat, fuel2: nat|
                (#[trigger] resolve(a, env, fuel1)) is Some && (#[trigger] resolve(b, env, fuel2)) is Some implies alike(
                resolve(a, env, fuel1).unwrap(),
                resolve(b, env, fuel2).unwrap(),
            ) by {
                assert(resolve(a, env, fuel1) == resolve(bound, env, (fuel1 - 1) as nat));
            }
        },
        Some(Binding::Unbound(level, _)) => {
            let target = follow(b, p.bindings, store, fuel)->Ok_0;
            if a == target {
                assert forall|fuel1: nat, fuel2: nat|
                    (#[trigger] resolve(a, env, fuel1)) is Some && (#[trigger] resolve(b, env, fuel2)) is Some implies alike(
                    resolve(a, env, fuel1).unwrap(),
                    resolve(b, env, fuel2).unwrap(),
                ) by {
                    lemma_follow_resolves(b, p.bindings, store, fuel, env, fuel2);
                    lemma_resolve_unique(a, env, fuel1, fuel2);
                    lemma_alike_reflexive(resolve(a, env, fuel1).unwrap());
                }
            } else {
                assert(q.bindings == p.bindings.insert(id, target));
                assert(env.contains_key(id) && env[id] == target);
                assert forall|fuel1: nat, fuel2: nat|
                    (#[trigger] resolve(a, env, fuel1)) is Some && (#[trigger] resolve(b, env, fuel2)) is Some implies alike(
                    resolve(a, env, fuel1).unwrap(),
                    resolve(b, env, fuel2).unwrap(),
                ) by {
                    lemma_follow_resolves(b, p.bindings, store, fuel, env, fuel2);
                    assert(resolve(a, env, fuel1) == resolve(target, env, (fuel1 - 1) as nat));
                    lemma_resolve_unique(target, env, (fuel1 - 1) as nat, fuel2);
                    lemma_alike_reflexive(resolve(a, env, fuel1).unwrap());
                }
            }
        },
    }
}

pub proof fn lemma_unify_all_sound(
    types1: Seq<Term>,
    types2: Seq<Term>,
    p: Pending,
    store: Seq<Binding>,
    fuel: nat,
)
    requires
        unify_all(types1, types2, p, store, fuel).0 is Ok,
    ensures
        agree_pairwise(types1, types2, environment(unify_all(types1, types2, p, store, fuel).1.bindings, store)),
    decreases fuel, 2nat, types1.len(),
{
    if types1.len() == 0 || types2.len() == 0 {
    } else {
        let (first, p1) = unify_terms(types1[0], types2[0], p, store, fuel);
        let q = unify_all(types1.drop_first(), types2.drop_first(), p1, store, fuel).1;
        let env = environment(q.bindings, store);
        lemma_unify_sound(types1[0], types2[0], p, store, fuel);
        lemma_unify_all_sound(types1.drop_first(), types2.drop_first(), p1, store, fuel);
        lemma_unify_all_extends(types1.drop_first(), types2.drop_first(), p1, store, fuel);
        lemma_environment_grows(p1, q, store);
        lemma_agree_stable(types1[0], types2[0], environment(p1.bindings, store), env);
        assert forall|i: int| 0 <= i < types1.len() && i < types2.len() implies agree(
            #[trigger] types1[i],
            types2[i],
            env,
        ) by {
            if i > 0 {
                assert(types1[i] == types1.drop_first()[i - 1]);
                assert(types2[i] == types2.drop_first()[i - 1]);
                assert(agree(types1.drop_first()[i - 1], types2.drop_first()[i - 1], env));
            }
        }
    }
}

/// Soundness of unification. Let unification of `t1` with `t2` succeed, and let both types
/// resolve under the bindings it returns together with those of the table. Then what they
/// resolve to is alike; and where neither holds a variadic function type, it is one and the
/// same type.
pub proof fn lemma_unification_sound(
    t1: Term,
    t2: Term,
    p: Pending,
    store: Seq<Binding>,
    fuel: nat,
    fuel1: nat,
    fuel2: nat,
)
    requires
        unify_terms(t1, t2, p, store, fuel).0 is Ok,
        resolve(t1, environment(unify_terms(t1, t2, p, store, fuel).1.bindings, store), fuel1) is Some,
        resolve(t2, environment(unify_terms(t1, t2, p, store, fuel).1.bindings, store), fuel2) is Some,
    ensures
        ({
            let env = environment(unify_terms(t1, t2, p, store, fuel).1.bindings, store);
            let r1 = resolve(t1, env, fuel1).unwrap();
            let r2 = resolve(t2, env, fuel2).unwrap();
            &&& alike(r1, r2)
            &&& without_varargs(r1) && without_varargs(r2) ==> r1 == r2
        }),
{
    let env = environment(unify_terms(t1, t2, p, store, fuel).1.bindings, store);
    lemma_unify_sound(t1, t2, p, store, fuel);
    let r1 = resolve(t1, env, fuel1).unwrap();
    let r2 = resolve(t2, env, fuel2).unwrap();
    assert(alike(r1, r2));
    if without_varargs(r1) && without_varargs(r2) {
        lemma_alike_without_varargs(r1, r2);
    }
}

} // verus!
