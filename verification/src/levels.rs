//! Levels only go down: binding a variable lowers every variable of its binding to the
//! level of the variable, and nothing ever raises a level.
use vstd::prelude::*;
use crate::cache::Binding;
use crate::closure::{resolve, resolve_each};
use crate::error::Fault;
use crate::occurs_check::mentions;
use crate::soundness::{environment, lemma_follow_resolves};
use crate::types::{LetBindingLevel, Term, TypeVariableId};
use crate::unify::{
    bind_all, chain, commit, find, follow, lower_levels, lemma_lower_levels_len, occurs_in,
    occurs_in_all, occurs_in_variable, unify_terms, unify_variable, Occurrence, Pending,
};

verus! {

/// Does each pair lower a variable that is unbound, not pending, and above `level`, to
/// `level`?
pub open spec fn lowers_to(
    levels: Seq<(TypeVariableId, LetBindingLevel)>,
    level: LetBindingLevel,
    pending: Map<TypeVariableId, Term>,
    store: Seq<Binding>,
) -> bool {
    forall|i: int|
        0 <= i < levels.len() ==> {
            let (v, to) = #[trigger] levels[i];
            &&& to == level
            &&& find(v, pending, store) matches Some(Binding::Unbound(original, _)) && level.0 < original.0
        }
}

proof fn lemma_chain_lowers(
    first: Result<Occurrence, Fault>,
    second: Result<Occurrence, Fault>,
    level: LetBindingLevel,
    pending: Map<TypeVariableId, Term>,
    store: Seq<Binding>,
)
    requires
        first matches Ok((_, levels)) ==> lowers_to(levels, level, pending, store),
        second matches Ok((_, levels)) ==> lowers_to(levels, level, pending, store),
    ensures
        chain(first, second) matches Ok((_, levels)) ==> lowers_to(levels, level, pending, store),
{
}

/// An occurs check lowers only unbound variables above the level, and to the level.
pub proof fn lemma_occurs_lowers(
    id: TypeVariableId,
    level: LetBindingLevel,
    t: Term,
    pending: Map<TypeVariableId, Term>,
    store: Seq<Binding>,
    fuel: nat,
)
    ensures
        occurs_in(id, level, t, pending, store, fuel) matches Ok((_, levels)) ==> lowers_to(
            levels,
            level,
            pending,
            store,
        ),
    decreases fuel, 1nat, 0nat,
{
    match t {
        Term::Primitive(_) => {},
        Term::UserDefined(_) => {},
        Term::TypeVariable(v) => lemma_occurs_variable_lowers(id, level, v, pending, store, fuel),
        Term::Ref(v) => lemma_occurs_variable_lowers(id, level, v, pending, store, fuel),
        Term::Function(parameters, return_type, environment, _) => {
            if fuel > 0 {
                let g = (fuel - 1) as nat;
                lemma_occurs_lowers(id, level, *return_type, pending, store, g);
                lemma_occurs_lowers(id, level, *environment, pending, store, g);
                lemma_occurs_all_lowers(id, level, parameters, pending, store, g);
                lemma_chain_lowers(
                    occurs_in(id, level, *environment, pending, store, g),
                    occurs_in_all(id, level, parameters, pending, store, g),
                    level,
                    pending,
                    store,
                );
                lemma_chain_lowers(
                    occurs_in(id, level, *return_type, pending, store, g),
                    chain(
                        occurs_in(id, level, *environment, pending, store, g),
                        occurs_in_all(id, level, parameters, pending, store, g),
                    ),
                    level,
                    pending,
                    store,
                );
            }
        },
        Term::TypeApplication(constructor, args) => {
            if fuel > 0 {
                let g = (fuel - 1) as nat;
                lemma_occurs_lowers(id, level, *constructor, pending, store, g);
                lemma_occurs_all_lowers(id, level, args, pending, store, g);
                lemma_chain_lowers(
                    occurs_in(id, level, *constructor, pending, store, g),
                    occurs_in_all(id, level, args, pending, store, g),
                    level,
                    pending,
                    store,
                );
            }
        },
    }
}

proof fn lemma_occurs_variable_lowers(
    id: TypeVariableId,
    level: LetBindingLevel,
    v: TypeVariableId,
    pending: Map<TypeVariableId, Term>,
    store: Seq<Binding>,
    fuel: nat,
)
    ensures
        occurs_in_variable(id, level, v, pending, store, fuel) matches Ok((_, levels)) ==> lowers_to(
            levels,
            level,
            pending,
            store,
        ),
    decreases fuel, 0nat, 0nat,
{
    match find(v, pending, store) {
        Some(Binding::Bound(t)) => {
            if fuel > 0 {
                lemma_occurs_lowers(id, level, t, pending, store, (fuel - 1) as nat);
            }
        },
        _ => {},
    }
}

proof fn lemma_occurs_all_lowers(
    id: TypeVariableId,
    level: LetBindingLevel,
    types: Seq<Term>,
    pending: Map<TypeVariableId, Term>,
    store: Seq<Binding>,
    fuel: nat,
)
    ensures
        occurs_in_all(id, level, types, pending, store, fuel) matches Ok((_, levels)) ==> lowers_to(
            levels,
            level,
            pending,
            store,
        ),
    decreases fuel, 2nat, types.len(),
{
    if types.len() > 0 {
        lemma_occurs_lowers(id, level, types[0], pending, store, fuel);
        lemma_occurs_all_lowers(id, level, types.drop_first(), pending, store, fuel);
        lemma_chain_lowers(
            occurs_in(id, level, types[0], pending, store, fuel),
            occurs_in_all(id, level, types.drop_first(), pending, store, fuel),
            level,
            pending,
            store,
        );
    }
}

/// Is the variable `v` unbound, and either not above `level` or among those to be lowered?
pub open spec fn covered(
    v: TypeVariableId,
    level: LetBindingLevel,
    levels: Seq<(TypeVariableId, LetBindingLevel)>,
    pending: Map<TypeVariableId, Term>,
    store: Seq<Binding>,
) -> bool {
    find(v, pending, store) matches Some(Binding::Unbound(original, _)) && (level.0 < original.0
        ==> levels.contains((v, level)))
}

proof fn lemma_chain_covers(
    first: Result<Occurrence, Fault>,
    second: Result<Occurrence, Fault>,
    v: TypeVariableId,
    level: LetBindingLevel,
    pending: Map<TypeVariableId, Term>,
    store: Seq<Binding>,
)
    requires
        chain(first, second) matches Ok((found, _)) && !found,
        covered(v, level, first->Ok_0.1, pending, store) || covered(v, level, second->Ok_0.1, pending, store),
    ensures
        covered(v, level, chain(first, second)->Ok_0.1, pending, store),
{
    let l1 = first->Ok_0.1;
    let l2 = second->Ok_0.1;
    let all = l1 + l2;
    if l1.contains((v, level)) {
        let i = choose|i: int| 0 <= i < l1.len() && l1[i] == (v, level);
        assert(all[i] == (v, level));
    }
    if l2.contains((v, level)) {
        let i = choose|i: int| 0 <= i < l2.len() && l2[i] == (v, level);
        assert(all[l1.len() + i] == (v, level));
    }
}

/// Where the occurs check finds nothing, it lowers every variable above the level that
/// occurs in what the type resolves to.
pub proof fn lemma_occurs_covers(
    id: TypeVariableId,
    level: LetBindingLevel,
    t: Term,
    pending: Map<TypeVariableId, Term>,
    store: Seq<Binding>,
    fuel: nat,
    f: nat,
    v: TypeVariableId,
)
    requires
        occurs_in(id, level, t, pending, store, fuel) matches Ok((found, _)) && !found,
        resolve(t, environment(pending, store), f) is Some,
        mentions(resolve(t, environment(pending, store), f).unwrap(), v),
    ensures
        covered(v, level, occurs_in(id, level, t, pending, store, fuel)->Ok_0.1, pending, store),
    decreases fuel, 1nat, 0nat,
{
    let env = environment(pending, store);
    match t {
        Term::Primitive(_) => {},
        Term::UserDefined(_) => {},
        Term::TypeVariable(w) => {
            lemma_occurs_variable_covers(id, level, w, pending, store, fuel, f, t, v);
        },
        Term::Ref(w) => {
            lemma_occurs_variable_covers(id, level, w, pending, store, fuel, f, t, v);
        },
        Term::Function(parameters, return_type, environment, _) => {
            let g = (fuel - 1) as nat;
            let h = (f - 1) as nat;
            let in_return = occurs_in(id, level, *return_type, pending, store, g);
            let in_environment = occurs_in(id, level, *environment, pending, store, g);
            let in_parameters = occurs_in_all(id, level, parameters, pending, store, g);
            let inner = chain(in_environment, in_parameters);
            let rps = resolve_each(parameters, env, h).unwrap();
            if mentions(resolve(*return_type, env, h).unwrap(), v) {
                lemma_occurs_covers(id, level, *return_type, pending, store, g, h, v);
            } else if mentions(resolve(*environment, env, h).unwrap(), v) {
                lemma_occurs_covers(id, level, *environment, pending, store, g, h, v);
                lemma_chain_covers(in_environment, in_parameters, v, level, pending, store);
            } else {
                let i = choose|i: int| 0 <= i < rps.len() && mentions(#[trigger] rps[i], v);
                lemma_occurs_all_covers(id, level, parameters, pending, store, g, h, v, i);
                lemma_chain_covers(in_environment, in_parameters, v, level, pending, store);
            }
            lemma_chain_covers(in_return, inner, v, level, pending, store);
        },
        Term::TypeApplication(constructor, args) => {
            let g = (fuel - 1) as nat;
            let h = (f - 1) as nat;
            let in_constructor = occurs_in(id, level, *constructor, pending, store, g);
            let in_args = occurs_in_all(id, level, args, pending, store, g);
            let rxs = resolve_each(args, env, h).unwrap();
            if mentions(resolve(*constructor, env, h).unwrap(), v) {
                lemma_occurs_covers(id, level, *constructor, pending, store, g, h, v);
            } else {
                let i = choose|i: int| 0 <= i < rxs.len() && mentions(#[trigger] rxs[i], v);
                lemma_occurs_all_covers(id, level, args, pending, store, g, h, v, i);
            }
            lemma_chain_covers(in_constructor, in_args, v, level, pending, store);
        },
    }
}

proof fn lemma_occurs_variable_covers(
    id: TypeVariableId,
    level: LetBindingLevel,
    w: TypeVariableId,
    pending: Map<TypeVariableId, Term>,
    store: Seq<Binding>,
    fuel: nat,
    f: nat,
    t: Term,
    v: TypeVariableId,
)
    requires
        t == Term::TypeVariable(w) || t == Term::Ref(w),
        occurs_in_variable(id, level, w, pending, store, fuel) matches Ok((found, _)) && !found,
        resolve(t, environment(pending, store), f) is Some,
        mentions(resolve(t, environment(pending, store), f).unwrap(), v),
    ensures
        covered(v, level, occurs_in_variable(id, level, w, pending, store, fuel)->Ok_0.1, pending, store),
    decreases fuel, 0nat, 0nat,
{
    let env = environment(pending, store);
    match find(w, pending, store) {
        Some(Binding::Bound(next)) => {
            assert(env.contains_key(w) && env[w] == next);
            lemma_occurs_covers(id, level, next, pending, store, (fuel - 1) as nat, (f - 1) as nat, v);
        },
        Some(Binding::Unbound(original, _)) => {
            assert(!env.contains_key(w));
            assert(v == w);
            if level.0 < original.0 {
                assert(seq![(w, level)][0] == (w, level));
            }
        },
        None => {},
    }
}

proof fn lemma_occurs_all_covers(
    id: TypeVariableId,
    level: LetBindingLevel,
    types: Seq<Term>,
    pending: Map<TypeVariableId, Term>,
    store: Seq<Binding>,
    fuel: nat,
    f: nat,
    v: TypeVariableId,
    at: int,
)
    requires
        occurs_in_all(id, level, types, pending, store, fuel) matches Ok((found, _)) && !found,
        resolve_each(types, environment(pending, store), f) is Some,
        0 <= at < types.len(),
        mentions(resolve_each(types, environment(pending, store), f).unwrap()[at], v),
    ensures
        covered(v, level, occurs_in_all(id, level, types, pending, store, fuel)->Ok_0.1, pending, store),
    decreases fuel, 2nat, types.len(),
{
    let env = environment(pending, store);
    let rest = types.drop_first();
    let first = occurs_in(id, level, types[0], pending, store, fuel);
    let others = occurs_in_all(id, level, rest, pending, store, fuel);
    assert(resolve(types[0], env, f) is Some);
    if at == 0 {
        lemma_occurs_covers(id, level, types[0], pending, store, fuel, f, v);
    } else {
        assert forall|i: int| 0 <= i < rest.len() implies resolve(#[trigger] rest[i], env, f) is Some by {
            assert(rest[i] == types[i + 1]);
            assert(resolve(types[i + 1], env, f) is Some);
        }
        assert(rest[at - 1] == types[at]);
        assert(resolve_each(rest, env, f).unwrap()[at - 1] == resolve_each(types, env, f).unwrap()[at]);
        lemma_occurs_all_covers(id, level, rest, pending, store, fuel, f, v, at - 1);
    }
    lemma_chain_covers(first, others, v, level, pending, store);
}

/// The level that a variable has after `levels` were lowered, all of them to `level`.
pub proof fn lemma_lowered(
    store: Seq<Binding>,
    levels: Seq<(TypeVariableId, LetBindingLevel)>,
    level: LetBindingLevel,
    v: TypeVariableId,
)
    requires
        v < store.len(),
        forall|i: int| 0 <= i < levels.len() ==> (#[trigger] levels[i]).1 == level,
    ensures
        lower_levels(store, levels).len() == store.len(),
        lower_levels(store, levels)[v as int] == (match store[v as int] {
            Binding::Bound(t) => Binding::Bound(t),
            Binding::Unbound(original, kind) => if levels.contains((v, level)) && level.0 <= original.0 {
                Binding::Unbound(level, kind)
            } else {
                Binding::Unbound(original, kind)
            },
        }),
    decreases levels.len(),
{
    lemma_lower_levels_len(store, levels);
    if levels.len() > 0 {
        let front = levels.drop_last();
        lemma_lowered(store, front, level, v);
        lemma_lower_levels_len(store, front);
        let last = levels.last();
        assert(last.1 == level);
        if front.contains((v, level)) {
            let i = choose|i: int| 0 <= i < front.len() && front[i] == (v, level);
            assert(levels[i] == (v, level));
        }
        if levels.contains((v, level)) && last != (v, level) {
            let i = choose|i: int| 0 <= i < levels.len() && levels[i] == (v, level);
            assert(front[i] == (v, level));
        }
        if last == (v, level) {
            assert(levels[levels.len() - 1] == (v, level));
        }
    }
}

/// Nothing raises a level: a variable that is unbound after bindings were committed was
/// unbound before, with the same kind and at a level that was not lower.
pub proof fn lemma_commit_only_lowers(store: Seq<Binding>, p: Pending, v: TypeVariableId)
    requires
        v < store.len(),
    ensures
        commit(store, p).len() == store.len(),
        commit(store, p)[v as int] matches Binding::Unbound(level, kind) ==> (store[v as int] matches Binding::Unbound(
            original,
            same,
        ) && level.0 <= original.0 && kind == same),
{
    lemma_lower_levels_only_lower(bind_all(store, p.bindings), p.level_bindings, v);
}

proof fn lemma_lower_levels_only_lower(
    store: Seq<Binding>,
    levels: Seq<(TypeVariableId, LetBindingLevel)>,
    v: TypeVariableId,
)
    requires
        v < store.len(),
    ensures
        lower_levels(store, levels).len() == store.len(),
        lower_levels(store, levels)[v as int] matches Binding::Unbound(level, kind) ==> (store[v as int] matches Binding::Unbound(
            original,
            same,
        ) && level.0 <= original.0 && kind == same),
        store[v as int] is Bound ==> lower_levels(store, levels)[v as int] == store[v as int],
    decreases levels.len(),
{
    lemma_lower_levels_len(store, levels);
    if levels.len() > 0 {
        lemma_lower_levels_only_lower(store, levels.drop_last(), v);
        lemma_lower_levels_len(store, levels.drop_last());
    }
}

/// Level monotonicity. Let the unbound variable `id`, at `level`, be unified with the type
/// `t`, and let this bind the variable. Then, once the bindings are committed, each
/// variable that occurs in what `t` resolved to is still unbound, and its level is the
/// lesser of the level it had and `level`.
pub proof fn lemma_binding_lowers_levels(
    id: TypeVariableId,
    t: Term,
    store: Seq<Binding>,
    fuel: nat,
    f: nat,
    v: TypeVariableId,
)
    requires
        store.len() <= usize::MAX,
        id < store.len(),
        store[id as int] is Unbound,
        unify_terms(
            Term::TypeVariable(id),
            t,
            Pending { bindings: Map::empty(), level_bindings: Seq::empty() },
            store,
            fuel,
        ).0 is Ok,
        resolve(t, environment(Map::empty(), store), f) is Some,
        resolve(t, environment(Map::empty(), store), f).unwrap() != Term::TypeVariable(id),
        mentions(resolve(t, environment(Map::empty(), store), f).unwrap(), v),
    ensures
        ({
            let nothing = Pending { bindings: Map::empty(), level_bindings: Seq::empty() };
            let after = commit(store, unify_terms(Term::TypeVariable(id), t, nothing, store, fuel).1);
            let level = store[id as int]->Unbound_0;
            &&& v < store.len()
            &&& v != id
            &&& store[v as int] matches Binding::Unbound(original, kind) && after[v as int] == Binding::Unbound(
                if level.0 <= original.0 {
                    level
                } else {
                    original
                },
                kind,
            )
        }),
{
    let nothing = Pending { bindings: Map::<TypeVariableId, Term>::empty(), level_bindings: Seq::empty() };
    let a = Term::TypeVariable(id);
    let env = environment(nothing.bindings, store);
    let level = store[id as int]->Unbound_0;
    let q = unify_terms(a, t, nothing, store, fuel).1;
    assert(unify_terms(a, t, nothing, store, fuel) == unify_variable(id, a, t, nothing, store, fuel));
    assert(find(id, nothing.bindings, store) == Some(store[id as int]));
    assert(!env.contains_key(id));
    let target = follow(t, nothing.bindings, store, fuel)->Ok_0;
    lemma_follow_resolves(t, nothing.bindings, store, fuel, env, f);
    if a == target {
        assert(resolve(a, env, f) == Some(a));
    }
    let levels = occurs_in(id, level, target, nothing.bindings, store, fuel)->Ok_0.1;
    assert(q.bindings =~= nothing.bindings.insert(id, target));
    assert(q.level_bindings =~= levels);
    crate::occurs_check::lemma_occurs_complete(id, level, target, nothing.bindings, store, fuel, f);
    lemma_occurs_covers(id, level, target, nothing.bindings, store, fuel, f, v);
    lemma_occurs_lowers(id, level, target, nothing.bindings, store, fuel);
    let bound = bind_all(store, q.bindings);
    assert(bound[v as int] == store[v as int]);
    lemma_lowered(bound, levels, level, v);
    if levels.contains((v, level)) {
        let i = choose|i: int| 0 <= i < levels.len() && levels[i] == (v, level);
        assert(levels[i].0 == v);
    }
}

} // verus!
