//! The substitution closure of a set of bindings: a type with every bound variable
//! replaced by what it is bound to, over and over, until only unbound variables are left.
use vstd::prelude::*;
use crate::types::{Term, TypeVariableId};
use crate::unify::parameter_counts_agree;

verus! {

/// The type `t` with each variable that `env` binds replaced by its binding, in which the
/// same is done. `None` where this goes deeper than `fuel`, as it does for every `fuel` on
/// bindings that form a cycle.
pub open spec fn resolve(t: Term, env: Map<TypeVariableId, Term>, fuel: nat) -> Option<Term>
    decreases fuel, 1nat,
{
    match t {
        Term::Primitive(_) => Some(t),
        Term::UserDefined(_) => Some(t),
        Term::TypeVariable(id) => if env.contains_key(id) {
            if fuel == 0 {
                None
            } else {
                resolve(env[id], env, (fuel - 1) as nat)
            }
        } else {
            Some(t)
        },
        Term::Ref(id) => if env.contains_key(id) {
            if fuel == 0 {
                None
            } else {
                resolve(env[id], env, (fuel - 1) as nat)
            }
        } else {
            Some(t)
        },
        Term::Function(parameters, return_type, environment, is_varargs) => if fuel == 0 {
            None
        } else {
            match (
                resolve_each(parameters, env, (fuel - 1) as nat),
                resolve(*return_type, env, (fuel - 1) as nat),
                resolve(*environment, env, (fuel - 1) as nat),
            ) {
                (Some(ps), Some(r), Some(e)) => Some(Term::Function(ps, Box::new(r), Box::new(e), is_varargs)),
                _ => None,
            }
        },
        Term::TypeApplication(constructor, args) => if fuel == 0 {
            None
        } else {
            match (
                resolve(*constructor, env, (fuel - 1) as nat),
                resolve_each(args, env, (fuel - 1) as nat),
            ) {
                (Some(c), Some(xs)) => Some(Term::TypeApplication(Box::new(c), xs)),
                _ => None,
            }
        },
    }
}

/// [`resolve`] on each type of a list.
pub open spec fn resolve_each(types: Seq<Term>, env: Map<TypeVariableId, Term>, fuel: nat) -> Option<Seq<Term>>
    decreases fuel, 2nat,
{
    if forall|i: int| 0 <= i < types.len() ==> resolve(#[trigger] types[i], env, fuel) is Some {
        Some(Seq::new(types.len(), |i: int| resolve(types[i], env, fuel).unwrap()))
    } else {
        None
    }
}

/// More fuel does not change what a type resolves to.
pub proof fn lemma_resolve_monotonic(t: Term, env: Map<TypeVariableId, Term>, fuel: nat, more: nat)
    requires
        resolve(t, env, fuel) is Some,
        fuel <= more,
    ensures
        resolve(t, env, more) == resolve(t, env, fuel),
    decreases fuel, 1nat,
{
    match t {
        Term::Primitive(_) => {},
        Term::UserDefined(_) => {},
        Term::TypeVariable(id) => {
            if env.contains_key(id) {
                lemma_resolve_monotonic(env[id], env, (fuel - 1) as nat, (more - 1) as nat);
            }
        },
        Term::Ref(id) => {
            if env.contains_key(id) {
                lemma_resolve_monotonic(env[id], env, (fuel - 1) as nat, (more - 1) as nat);
            }
        },
        Term::Function(parameters, return_type, environment, _) => {
            lemma_resolve_each_monotonic(parameters, env, (fuel - 1) as nat, (more - 1) as nat);
            lemma_resolve_monotonic(*return_type, env, (fuel - 1) as nat, (more - 1) as nat);
            lemma_resolve_monotonic(*environment, env, (fuel - 1) as nat, (more - 1) as nat);
        },
        Term::TypeApplication(constructor, args) => {
            lemma_resolve_monotonic(*constructor, env, (fuel - 1) as nat, (more - 1) as nat);
            lemma_resolve_each_monotonic(args, env, (fuel - 1) as nat, (more - 1) as nat);
        },
    }
}

pub proof fn lemma_resolve_each_monotonic(types: Seq<Term>, env: Map<TypeVariableId, Term>, fuel: nat, more: nat)
    requires
        resolve_each(types, env, fuel) is Some,
        fuel <= more,
    ensures
        resolve_each(types, env, more) == resolve_each(types, env, fuel),
    decreases fuel, 2nat,
{
    assert forall|i: int| 0 <= i < types.len() implies resolve(#[trigger] types[i], env, more) == resolve(
        types[i],
        env,
        fuel,
    ) by {
        assert(resolve(types[i], env, fuel) is Some);
        lemma_resolve_monotonic(types[i], env, fuel, more);
    }
    assert(resolve_each(types, env, more).unwrap() =~= resolve_each(types, env, fuel).unwrap());
}

/// Whatever the fuel, a type resolves to one type at most.
pub proof fn lemma_resolve_unique(t: Term, env: Map<TypeVariableId, Term>, fuel1: nat, fuel2: nat)
    requires
        resolve(t, env, fuel1) is Some,
        resolve(t, env, fuel2) is Some,
    ensures
        resolve(t, env, fuel1) == resolve(t, env, fuel2),
{
    if fuel1 <= fuel2 {
        lemma_resolve_monotonic(t, env, fuel1, fuel2);
    } else {
        lemma_resolve_monotonic(t, env, fuel2, fuel1);
    }
}

/// Is every variable of `t` unbound in `env`?
pub open spec fn settled(t: Term, env: Map<TypeVariableId, Term>) -> bool
    decreases t,
{
    match t {
        Term::Primitive(_) => true,
        Term::UserDefined(_) => true,
        Term::TypeVariable(id) => !env.contains_key(id),
        Term::Ref(id) => !env.contains_key(id),
        Term::Function(parameters, return_type, environment, _) => {
            &&& forall|i: int| 0 <= i < parameters.len() ==> settled(#[trigger] parameters[i], env)
            &&& settled(*return_type, env)
            &&& settled(*environment, env)
        },
        Term::TypeApplication(constructor, args) => {
            &&& settled(*constructor, env)
            &&& forall|i: int| 0 <= i < args.len() ==> settled(#[trigger] args[i], env)
        },
    }
}

/// What a type resolves to has no bound variable left, and resolves to itself: to apply
/// the substitution closure twice is to apply it once.
pub proof fn lemma_resolve_idempotent(t: Term, env: Map<TypeVariableId, Term>, fuel: nat)
    requires
        resolve(t, env, fuel) is Some,
    ensures
        settled(resolve(t, env, fuel).unwrap(), env),
        resolve(resolve(t, env, fuel).unwrap(), env, fuel) == resolve(t, env, fuel),
    decreases fuel, 1nat,
{
    let r = resolve(t, env, fuel).unwrap();
    match t {
        Term::Primitive(_) => {},
        Term::UserDefined(_) => {},
        Term::TypeVariable(id) => {
            if env.contains_key(id) {
                lemma_resolve_idempotent(env[id], env, (fuel - 1) as nat);
                lemma_resolve_monotonic(r, env, (fuel - 1) as nat, fuel);
            }
        },
        Term::Ref(id) => {
            if env.contains_key(id) {
                lemma_resolve_idempotent(env[id], env, (fuel - 1) as nat);
                lemma_resolve_monotonic(r, env, (fuel - 1) as nat, fuel);
            }
        },
        Term::Function(parameters, return_type, environment, is_varargs) => {
            let f = (fuel - 1) as nat;
            lemma_resolve_each_idempotent(parameters, env, f);
            lemma_resolve_idempotent(*return_type, env, f);
            lemma_resolve_idempotent(*environment, env, f);
            let ps = resolve_each(parameters, env, f).unwrap();
            assert(resolve_each(ps, env, f) == Some(ps));
        },
        Term::TypeApplication(constructor, args) => {
            let f = (fuel - 1) as nat;
            lemma_resolve_idempotent(*constructor, env, f);
            lemma_resolve_each_idempotent(args, env, f);
            let xs = resolve_each(args, env, f).unwrap();
            assert(resolve_each(xs, env, f) == Some(xs));
        },
    }
}

pub proof fn lemma_resolve_each_idempotent(types: Seq<Term>, env: Map<TypeVariableId, Term>, fuel: nat)
    requires
        resolve_each(types, env, fuel) is Some,
    ensures
        forall|i: int|
            0 <= i < types.len() ==> settled(#[trigger] resolve_each(types, env, fuel).unwrap()[i], env),
        resolve_each(resolve_each(types, env, fuel).unwrap(), env, fuel) == resolve_each(types, env, fuel),
    decreases fuel, 2nat,
{
    let rs = resolve_each(types, env, fuel).unwrap();
    assert forall|i: int| 0 <= i < types.len() implies settled(#[trigger] rs[i], env) && resolve(
        rs[i],
        env,
        fuel,
    ) == Some(rs[i]) by {
        assert(resolve(types[i], env, fuel) is Some);
        lemma_resolve_idempotent(types[i], env, fuel);
    }
    assert(resolve_each(rs, env, fuel).unwrap() =~= rs);
}

/// Are the two types the same, but for the number of parameters of function types where
/// one of the two is variadic, and for which of them is? This is as far as unification
/// makes two types the same: whether a function is variadic is never unified.
pub open spec fn alike(a: Term, b: Term) -> bool
    decreases a,
{
    match (a, b) {
        (Term::Function(ps1, r1, e1, v1), Term::Function(ps2, r2, e2, v2)) => {
            &&& parameter_counts_agree(ps1.len(), v1, ps2.len(), v2)
            &&& forall|i: int|
                0 <= i < ps1.len() && i < ps2.len() ==> alike(#[trigger] ps1[i], ps2[i])
            &&& alike(*r1, *r2)
            &&& alike(*e1, *e2)
        },
        (Term::TypeApplication(c1, xs1), Term::TypeApplication(c2, xs2)) => {
            &&& alike(*c1, *c2)
            &&& xs1.len() == xs2.len()
            &&& forall|i: int| 0 <= i < xs1.len() ==> alike(#[trigger] xs1[i], xs2[i])
        },
        _ => a == b,
    }
}

pub proof fn lemma_alike_reflexive(a: Term)
    ensures
        alike(a, a),
    decreases a,
{
    match a {
        Term::Function(ps, r, e, _) => {
            assert forall|i: int| 0 <= i < ps.len() implies alike(#[trigger] ps[i], ps[i]) by {
                lemma_alike_reflexive(ps[i]);
            }
            lemma_alike_reflexive(*r);
            lemma_alike_reflexive(*e);
        },
        Term::TypeApplication(c, xs) => {
            lemma_alike_reflexive(*c);
            assert forall|i: int| 0 <= i < xs.len() implies alike(#[trigger] xs[i], xs[i]) by {
                lemma_alike_reflexive(xs[i]);
            }
        },
        _ => {},
    }
}

pub proof fn lemma_alike_symmetric(a: Term, b: Term)
    requires
        alike(a, b),
    ensures
        alike(b, a),
    decreases a,
{
    match (a, b) {
        (Term::Function(ps1, r1, e1, v1), Term::Function(ps2, r2, e2, v2)) => {
            assert forall|i: int| 0 <= i < ps2.len() && i < ps1.len() implies alike(
                #[trigger] ps2[i],
                ps1[i],
            ) by {
                assert(alike(ps1[i], ps2[i]));
                lemma_alike_symmetric(ps1[i], ps2[i]);
            }
            lemma_alike_symmetric(*r1, *r2);
            lemma_alike_symmetric(*e1, *e2);
        },
        (Term::TypeApplication(c1, xs1), Term::TypeApplication(c2, xs2)) => {
            lemma_alike_symmetric(*c1, *c2);
            assert forall|i: int| 0 <= i < xs2.len() implies alike(#[trigger] xs2[i], xs1[i]) by {
                assert(alike(xs1[i], xs2[i]));
                lemma_alike_symmetric(xs1[i], xs2[i]);
            }
        },
        _ => {},
    }
}

/// Does the type hold no variadic function type?
pub open spec fn without_varargs(t: Term) -> bool
    decreases t,
{
    match t {
        Term::Function(parameters, return_type, environment, is_varargs) => {
            &&& !is_varargs
            &&& forall|i: int| 0 <= i < parameters.len() ==> without_varargs(#[trigger] parameters[i])
            &&& without_varargs(*return_type)
            &&& without_varargs(*environment)
        },
        Term::TypeApplication(constructor, args) => {
            &&& without_varargs(*constructor)
            &&& forall|i: int| 0 <= i < args.len() ==> without_varargs(#[trigger] args[i])
        },
        _ => true,
    }
}

/// Without variadic functions, types that are alike are the same.
pub proof fn lemma_alike_without_varargs(a: Term, b: Term)
    requires
        alike(a, b),
        without_varargs(a),
        without_varargs(b),
    ensures
        a == b,
    decreases a,
{
    match (a, b) {
        (Term::Function(ps1, r1, e1, v1), Term::Function(ps2, r2, e2, v2)) => {
            assert forall|i: int| 0 <= i < ps1.len() implies ps1[i] == ps2[i] by {
                assert(alike(ps1[i], ps2[i]));
                lemma_alike_without_varargs(ps1[i], ps2[i]);
            }
            assert(ps1 =~= ps2);
            lemma_alike_without_varargs(*r1, *r2);
            lemma_alike_without_varargs(*e1, *e2);
        },
        (Term::TypeApplication(c1, xs1), Term::TypeApplication(c2, xs2)) => {
            lemma_alike_without_varargs(*c1, *c2);
            assert forall|i: int| 0 <= i < xs1.len() implies xs1[i] == xs2[i] by {
                assert(alike(xs1[i], xs2[i]));
                lemma_alike_without_varargs(xs1[i], xs2[i]);
            }
            assert(xs1 =~= xs2);
        },
        _ => {},
    }
}

} // verus!
