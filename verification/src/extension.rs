//! Unification only ever adds to the pending bindings: it binds variables that were
//! unbound, and lowers levels of variables that the cache holds.
use vstd::prelude::*;
use crate::cache::Binding;
use crate::error::Fault;
use crate::types::{LetBindingLevel, Term, TypeVariableId};
use crate::unify::{
    chain, find, occurs_in, occurs_in_all, occurs_in_variable, unify_all, unify_terms,
    unify_variable, Occurrence, Pending,
};

verus! {

/// Does every pair of `levels` from position `from` on name a variable of the table?
pub open spec fn levels_known(
    levels: Seq<(TypeVariableId, LetBindingLevel)>,
    from: int,
    store: Seq<Binding>,
) -> bool {
    forall|i: int| from <= i < levels.len() ==> (#[trigger] levels[i]).0 < store.len()
}

/// Is `q` the bindings `p` with more variables bound and more levels to lower, where each
/// variable bound in addition is unbound in the table and each added level names a variable
/// of the table?
pub open spec fn extends(p: Pending, q: Pending, store: Seq<Binding>) -> bool {
    &&& forall|id: TypeVariableId| #[trigger]
        p.bindings.contains_key(id) ==> q.bindings.contains_key(id) && q.bindings[id]
            == p.bindings[id]
    &&& forall|id: TypeVariableId|
        #[trigger] q.bindings.contains_key(id) && !p.bindings.contains_key(id) ==> id
            < store.len() && store[id as int] is Unbound
    &&& p.level_bindings.is_prefix_of(q.level_bindings)
    &&& levels_known(q.level_bindings, p.level_bindings.len() as int, store)
}

pub proof fn lemma_extends_transitive(p: Pending, q: Pending, r: Pending, store: Seq<Binding>)
    requires
        extends(p, q, store),
        extends(q, r, store),
    ensures
        extends(p, r, store),
{
    assert forall|id: TypeVariableId| #[trigger]
        r.bindings.contains_key(id) && !p.bindings.contains_key(id) implies id < store.len()
        && store[id as int] is Unbound by {
        if q.bindings.contains_key(id) {
        }
    }
    assert(p.level_bindings.is_prefix_of(r.level_bindings)) by {
        assert(p.level_bindings =~= q.level_bindings.subrange(0, p.level_bindings.len() as int));
        assert(q.level_bindings =~= r.level_bindings.subrange(0, q.level_bindings.len() as int));
        assert(p.level_bindings =~= r.level_bindings.subrange(0, p.level_bindings.len() as int));
    }
    assert forall|i: int| p.level_bindings.len() <= i < r.level_bindings.len() implies (
    #[trigger] r.level_bindings[i]).0 < store.len() by {
        if i < q.level_bindings.len() {
            assert(q.level_bindings =~= r.level_bindings.subrange(0, q.level_bindings.len() as int));
            assert(r.level_bindings[i] == q.level_bindings[i]);
        }
    }
}

/// An occurs check lowers only variables of the table.
pub proof fn lemma_occurs_levels_known(
    id: TypeVariableId,
    level: LetBindingLevel,
    t: Term,
    pending: Map<TypeVariableId, Term>,
    store: Seq<Binding>,
    fuel: nat,
)
    ensures
        occurs_in(id, level, t, pending, store, fuel) matches Ok((_, levels)) ==> levels_known(
            levels,
            0,
            store,
        ),
    decreases fuel, 1nat, 0nat,
{
    match t {
        Term::Primitive(_) => {},
        Term::UserDefined(_) => {},
        Term::TypeVariable(v) => lemma_occurs_variable_levels_known(id, level, v, pending, store, fuel),
        Term::Ref(v) => lemma_occurs_variable_levels_known(id, level, v, pending, store, fuel),
        Term::Function(parameters, return_type, environment, _) => {
            if fuel > 0 {
                let f = (fuel - 1) as nat;
                lemma_occurs_levels_known(id, level, *return_type, pending, store, f);
                lemma_occurs_levels_known(id, level, *environment, pending, store, f);
                lemma_occurs_all_levels_known(id, level, parameters, pending, store, f);
                let inner = chain(
                    occurs_in(id, level, *environment, pending, store, f),
                    occurs_in_all(id, level, parameters, pending, store, f),
                );
                lemma_chain_levels_known(
                    occurs_in(id, level, *environment, pending, store, f),
                    occurs_in_all(id, level, parameters, pending, store, f),
                    store,
                );
                lemma_chain_levels_known(
                    occurs_in(id, level, *return_type, pending, store, f),
                    inner,
                    store,
                );
            }
        },
        Term::TypeApplication(constructor, args) => {
            if fuel > 0 {
                let f = (fuel - 1) as nat;
                lemma_occurs_levels_known(id, level, *constructor, pending, store, f);
                lemma_occurs_all_levels_known(id, level, args, pending, store, f);
                lemma_chain_levels_known(
                    occurs_in(id, level, *constructor, pending, store, f),
                    occurs_in_all(id, level, args, pending, store, f),
                    store,
                );
            }
        },
    }
}

proof fn lemma_chain_levels_known(
    first: Result<Occurrence, Fault>,
    second: Result<Occurrence, Fault>,
    store: Seq<Binding>,
)
    requires
        first matches Ok((_, levels)) ==> levels_known(levels, 0, store),
        second matches Ok((_, levels)) ==> levels_known(levels, 0, store),
    ensures
        chain(first, second) matches Ok((_, levels)) ==> levels_known(levels, 0, store),
{
}

proof fn lemma_occurs_variable_levels_known(
    id: TypeVariableId,
    level: LetBindingLevel,
    v: TypeVariableId,
    pending: Map<TypeVariableId, Term>,
    store: Seq<Binding>,
    fuel: nat,
)
    ensures
        occurs_in_variable(id, level, v, pending, store, fuel) matches Ok((_, levels))
            ==> levels_known(levels, 0, store),
    decreases fuel, 0nat, 0nat,
{
    match find(v, pending, store) {
        Some(Binding::Bound(t)) => {
            if fuel > 0 {
                lemma_occurs_levels_known(id, level, t, pending, store, (fuel - 1) as nat);
            }
        },
        _ => {},
    }
}

proof fn lemma_occurs_all_levels_known(
    id: TypeVariableId,
    level: LetBindingLevel,
    types: Seq<Term>,
    pending: Map<TypeVariableId, Term>,
    store: Seq<Binding>,
    fuel: nat,
)
    ensures
        occurs_in_all(id, level, types, pending, store, fuel) matches Ok((_, levels))
            ==> levels_known(levels, 0, store),
    decreases fuel, 2nat, types.len(),
{
    if types.len() > 0 {
        lemma_occurs_levels_known(id, level, types[0], pending, store, fuel);
        lemma_occurs_all_levels_known(id, level, types.drop_first(), pending, store, fuel);
        lemma_chain_levels_known(
            occurs_in(id, level, types[0], pending, store, fuel),
            occurs_in_all(id, level, types.drop_first(), pending, store, fuel),
            store,
        );
    }
}

/// Whatever its outcome, a unification leaves the bindings it was given in place, binds
/// in addition only variables that the table holds unbound, and lowers only variables of
/// the table.
pub proof fn lemma_unify_extends(t1: Term, t2: Term, p: Pending, store: Seq<Binding>, fuel: nat)
    ensures
        extends(p, unify_terms(t1, t2, p, store, fuel).1, store),
    decreases fuel, 1nat, 0nat,
{
    if t1 is Primitive && t2 is Primitive && t1->Primitive_0 == t2->Primitive_0 {
    } else if t1 is UserDefined && t2 is UserDefined && t1->UserDefined_0 == t2->UserDefined_0 {
    } else if let Term::TypeVariable(id) = t1 {
        lemma_unify_variable_extends(id, t1, t2, p, store, fuel);
    } else if let Term::TypeVariable(id) = t2 {
        lemma_unify_variable_extends(id, t2, t1, p, store, fuel);
    } else {
        match (t1, t2) {
            (
                Term::Function(parameters1, return1, environment1, is_varargs1),
                Term::Function(parameters2, return2, environment2, is_varargs2),
            ) => {
                if fuel > 0 {
                    let f = (fuel - 1) as nat;
                    let (first, p1) = unify_all(parameters1, parameters2, p, store, f);
                    lemma_unify_all_extends(parameters1, parameters2, p, store, f);
                    let (second, p2) = unify_terms(*return1, *return2, p1, store, f);
                    lemma_unify_extends(*return1, *return2, p1, store, f);
                    lemma_extends_transitive(p, p1, p2, store);
                    let (third, p3) = unify_terms(*environment1, *environment2, p2, store, f);
                    lemma_unify_extends(*environment1, *environment2, p2, store, f);
                    lemma_extends_transitive(p, p2, p3, store);
                }
            },
            (Term::TypeApplication(constructor1, args1), Term::TypeApplication(constructor2, args2)) => {
                if fuel > 0 {
                    let f = (fuel - 1) as nat;
                    let (first, p1) = unify_terms(*constructor1, *constructor2, p, store, f);
                    lemma_unify_extends(*constructor1, *constructor2, p, store, f);
                    let (second, p2) = unify_all(args1, args2, p1, store, f);
                    lemma_unify_all_extends(args1, args2, p1, store, f);
                    lemma_extends_transitive(p, p1, p2, store);
                }
            },
            (Term::Ref(lifetime), Term::Ref(_)) => {
                lemma_unify_variable_extends(lifetime, t1, t2, p, store, fuel);
            },
            _ => {},
        }
    }
}

pub proof fn lemma_unify_variable_extends(
    id: TypeVariableId,
    a: Term,
    b: Term,
    p: Pending,
    store: Seq<Binding>,
    fuel: nat,
)
    ensures
        extends(p, unify_variable(id, a, b, p, store, fuel).1, store),
    decreases fuel, 0nat, 0nat,
{
    match find(id, p.bindings, store) {
        None => {},
        Some(Binding::Bound(bound)) => {
            if fuel > 0 {
                lemma_unify_extends(bound, b, p, store, (fuel - 1) as nat);
            }
        },
        Some(Binding::Unbound(level, _)) => {
            match crate::unify::follow(b, p.bindings, store, fuel) {
                Err(_) => {},
                Ok(target) => {
                    if a != target {
                        lemma_occurs_levels_known(id, level, target, p.bindings, store, fuel);
                        match occurs_in(id, level, target, p.bindings, store, fuel) {
                            Ok((false, levels)) => {
                                let q = unify_variable(id, a, b, p, store, fuel).1;
                                assert(q.level_bindings == p.level_bindings + levels);
                                assert(p.level_bindings.is_prefix_of(q.level_bindings));
                                assert forall|i: int|
                                    p.level_bindings.len() <= i < q.level_bindings.len() implies (
                                #[trigger] q.level_bindings[i]).0 < store.len() by {
                                    assert(q.level_bindings[i] == levels[i - p.level_bindings.len()]);
                                }
                            },
                            _ => {},
                        }
                    }
                },
            }
        },
    }
}

pub proof fn lemma_unify_all_extends(
    types1: Seq<Term>,
    types2: Seq<Term>,
    p: Pending,
    store: Seq<Binding>,
    fuel: nat,
)
    ensures
        extends(p, unify_all(types1, types2, p, store, fuel).1, store),
    decreases fuel, 2nat, types1.len(),
{
    if types1.len() == 0 || types2.len() == 0 {
    } else {
        let (first, p1) = unify_terms(types1[0], types2[0], p, store, fuel);
        lemma_unify_extends(types1[0], types2[0], p, store, fuel);
        if first is Ok {
            let p2 = unify_all(types1.drop_first(), types2.drop_first(), p1, store, fuel).1;
            lemma_unify_all_extends(types1.drop_first(), types2.drop_first(), p1, store, fuel);
            lemma_extends_transitive(p, p1, p2, store);
        }
    }
}

} // verus!
