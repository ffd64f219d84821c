//! Generalisation: which type variables of a type are free, and which of them a definition
//! may quantify over.
use vstd::prelude::*;
use crate::cache::{Binding, ModuleCache, TypeBinding};
use crate::error::Fault;
use crate::sequence::{
    after, lemma_try_flat_map_end, lemma_try_flat_map_start, lemma_try_flat_map_step, try_flat_map,
};
use crate::traits::{constraints_of, Constraint, TraitConstraint};
use crate::types::{terms_of, GeneralizedType, LetBindingLevel, Scheme, Term, Type, TypeVariableId};
use crate::unify::RECURSION_LIMIT;

verus! {

/// Was a variable of this level made inside the definition whose right-hand side is being
/// inferred, and has not escaped from it? Such a variable may be generalised.
pub open spec fn is_polymorphic(level: LetBindingLevel, current_level: usize) -> bool {
    level.0 > current_level
}

/// Is the level above the current one?
pub fn level_is_polymorphic(level: LetBindingLevel, cache: &ModuleCache) -> (polymorphic: bool)
    ensures
        polymorphic == is_polymorphic(level, cache.current_level),
{
    level.0 > cache.current_level
}

/// The unbound variables that are reachable from `t` through the bindings of the table, in
/// the order in which a walk over the type meets them, each as often as it is met. With
/// `polymorphic_only`, only those whose level is above `current_level`.
pub open spec fn free_variables(
    t: Term,
    polymorphic_only: bool,
    store: Seq<Binding>,
    current_level: usize,
    fuel: nat,
) -> Result<Seq<TypeVariableId>, Fault>
    decreases fuel, 1nat,
{
    match t {
        Term::Primitive(_) => Ok(Seq::empty()),
        Term::UserDefined(_) => Ok(Seq::empty()),
        Term::TypeVariable(id) => free_variables_of_binding(id, polymorphic_only, store, current_level, fuel),
        Term::Ref(lifetime) => free_variables_of_binding(
            lifetime,
            polymorphic_only,
            store,
            current_level,
            fuel,
        ),
        Term::Function(parameters, return_type, environment, _) => if fuel == 0 {
            Err(Fault::RecursionLimit)
        } else {
            match try_flat_map(
                parameters,
                collector(polymorphic_only, store, current_level, (fuel - 1) as nat),
            ) {
                Err(fault) => Err(fault),
                Ok(in_parameters) => match free_variables(
                    *environment,
                    polymorphic_only,
                    store,
                    current_level,
                    (fuel - 1) as nat,
                ) {
                    Err(fault) => Err(fault),
                    Ok(in_environment) => match free_variables(
                        *return_type,
                        polymorphic_only,
                        store,
                        current_level,
                        (fuel - 1) as nat,
                    ) {
                        Err(fault) => Err(fault),
                        Ok(in_return) => Ok(in_parameters + in_environment + in_return),
                    },
                },
            }
        },
        Term::TypeApplication(constructor, args) => if fuel == 0 {
            Err(Fault::RecursionLimit)
        } else {
            match free_variables(*constructor, polymorphic_only, store, current_level, (fuel - 1) as nat) {
                Err(fault) => Err(fault),
                Ok(in_constructor) => match try_flat_map(
                    args,
                    collector(polymorphic_only, store, current_level, (fuel - 1) as nat),
                ) {
                    Err(fault) => Err(fault),
                    Ok(in_args) => Ok(in_constructor + in_args),
                },
            }
        },
    }
}

/// [`free_variables`] as a function of the type alone.
pub open spec fn collector(polymorphic_only: bool, store: Seq<Binding>, current_level: usize, fuel: nat) -> spec_fn(
    Term,
) -> Result<Seq<TypeVariableId>, Fault>
    decreases fuel, 2nat,
{
    |t: Term| free_variables(t, polymorphic_only, store, current_level, fuel)
}

/// The free variables of what the variable `id` is bound to, or the variable itself if it
/// is unbound and, with `polymorphic_only`, its level is above `current_level`.
pub open spec fn free_variables_of_binding(
    id: TypeVariableId,
    polymorphic_only: bool,
    store: Seq<Binding>,
    current_level: usize,
    fuel: nat,
) -> Result<Seq<TypeVariableId>, Fault>
    decreases fuel, 0nat,
{
    if id >= store.len() {
        Err(Fault::UnknownTypeVariable(id))
    } else {
        match store[id as int] {
            Binding::Bound(t) => if fuel == 0 {
                Err(Fault::RecursionLimit)
            } else {
                free_variables(t, polymorphic_only, store, current_level, (fuel - 1) as nat)
            },
            Binding::Unbound(level, _) => if is_polymorphic(level, current_level) || !polymorphic_only {
                Ok(seq![id])
            } else {
                Ok(Seq::empty())
            },
        }
    }
}

/// Does `result` hold exactly the variables `expected`, or the same fault?
pub open spec fn collects(result: Result<Vec<TypeVariableId>, Fault>, expected: Result<Seq<TypeVariableId>, Fault>) -> bool {
    match result {
        Ok(variables) => expected == Ok::<Seq<TypeVariableId>, Fault>(variables@),
        Err(fault) => expected == Err::<Seq<TypeVariableId>, Fault>(fault),
    }
}

pub fn find_in_each(types: &Vec<Type>, polymorphic_only: bool, cache: &ModuleCache, fuel: u32) -> (result: Result<
    Vec<TypeVariableId>,
    Fault,
>)
    ensures
        collects(
            result,
            try_flat_map(
                terms_of(types@),
                collector(polymorphic_only, cache.store(), cache.current_level, fuel as nat),
            ),
        ),
    decreases fuel, 2nat,
{
    let ghost all = terms_of(types@);
    let ghost f = collector(polymorphic_only, cache.store(), cache.current_level, fuel as nat);
    let mut type_variables: Vec<TypeVariableId> = Vec::new();
    let mut i: usize = 0;
    proof {
        lemma_try_flat_map_start(all, f);
    }
    while i < types.len()
        invariant
            i <= types.len(),
            all == terms_of(types@),
            f == collector(polymorphic_only, cache.store(), cache.current_level, fuel as nat),
            try_flat_map(all, f) == after(
                type_variables@,
                try_flat_map(all.subrange(i as int, all.len() as int), f),
            ),
        decreases types.len() - i,
    {
        proof {
            lemma_try_flat_map_step(all, f, type_variables@, i as int);
            assert(all[i as int] == types@[i as int]@);
        }
        match find_within(&types[i], polymorphic_only, cache, fuel) {
            Err(fault) => {
                return Err(fault);
            },
            Ok(found) => {
                let mut found = found;
                type_variables.append(&mut found);
            },
        }
        i += 1;
    }
    proof {
        lemma_try_flat_map_end(all, f, type_variables@);
    }
    Ok(type_variables)
}

fn find_within(typ: &Type, polymorphic_only: bool, cache: &ModuleCache, fuel: u32) -> (result: Result<
    Vec<TypeVariableId>,
    Fault,
>)
    ensures
        collects(
            result,
            free_variables(typ@, polymorphic_only, cache.store(), cache.current_level, fuel as nat),
        ),
    decreases fuel, 1nat,
{
    match typ {
        Type::Primitive(_) => Ok(Vec::new()),
        Type::UserDefined(_) => Ok(Vec::new()),
        Type::TypeVariable(id) => find_typevars_in_typevar_binding(*id, polymorphic_only, cache, fuel),
        Type::Function(function) => {
            if fuel == 0 {
                return Err(Fault::RecursionLimit);
            }
            let mut type_variables = match find_in_each(&function.parameters, polymorphic_only, cache, fuel - 1) {
                Err(fault) => {
                    return Err(fault);
                },
                Ok(found) => found,
            };
            let mut in_environment = match find_within(&function.environment, polymorphic_only, cache, fuel - 1) {
                Err(fault) => {
                    return Err(fault);
                },
                Ok(found) => found,
            };
            type_variables.append(&mut in_environment);
            let mut in_return = match find_within(&function.return_type, polymorphic_only, cache, fuel - 1) {
                Err(fault) => {
                    return Err(fault);
                },
                Ok(found) => found,
            };
            type_variables.append(&mut in_return);
            Ok(type_variables)
        },
        Type::TypeApplication(constructor, args) => {
            if fuel == 0 {
                return Err(Fault::RecursionLimit);
            }
            let mut type_variables = match find_within(constructor, polymorphic_only, cache, fuel - 1) {
                Err(fault) => {
                    return Err(fault);
                },
                Ok(found) => found,
            };
            let mut in_args = match find_in_each(args, polymorphic_only, cache, fuel - 1) {
                Err(fault) => {
                    return Err(fault);
                },
                Ok(found) => found,
            };
            type_variables.append(&mut in_args);
            Ok(type_variables)
        },
        Type::Ref(lifetime) => find_typevars_in_typevar_binding(*lifetime, polymorphic_only, cache, fuel),
    }
}

/// Collects all the type variables contained within `typ`, through the bindings of the
/// cache. With `polymorphic_only`, only those whose level is above the current level are
/// collected: those that a generalisation at this point would quantify over.
pub fn find_all_typevars(typ: &Type, polymorphic_only: bool, cache: &ModuleCache) -> (result: Result<
    Vec<TypeVariableId>,
    Fault,
>)
    ensures
        collects(
            result,
            free_variables(typ@, polymorphic_only, cache.store(), cache.current_level, RECURSION_LIMIT as nat),
        ),
{
    find_within(typ, polymorphic_only, cache, RECURSION_LIMIT)
}

/// Helper for [`find_all_typevars`]: collects in the binding of the variable if it is
/// bound, or returns the variable.
pub fn find_typevars_in_typevar_binding(
    id: TypeVariableId,
    polymorphic_only: bool,
    cache: &ModuleCache,
    fuel: u32,
) -> (result: Result<Vec<TypeVariableId>, Fault>)
    ensures
        collects(
            result,
            free_variables_of_binding(id, polymorphic_only, cache.store(), cache.current_level, fuel as nat),
        ),
    decreases fuel, 0nat,
{
    if id >= cache.type_bindings.len() {
        return Err(Fault::UnknownTypeVariable(id));
    }
    match &cache.type_bindings[id] {
        TypeBinding::Bound(t) => {
            if fuel == 0 {
                Err(Fault::RecursionLimit)
            } else {
                find_within(t, polymorphic_only, cache, fuel - 1)
            }
        },
        TypeBinding::Unbound(level, _) => {
            let mut found: Vec<TypeVariableId> = Vec::new();
            if level_is_polymorphic(*level, cache) || !polymorphic_only {
                found.push(id);
                assert(found@ =~= seq![id]);
            }
            Ok(found)
        },
    }
}

/// The generalisable variables of the arguments of one constraint.
pub open spec fn constraint_variables(store: Seq<Binding>, current_level: usize, fuel: nat) -> spec_fn(
    Constraint,
) -> Result<Seq<TypeVariableId>, Fault> {
    |constraint: Constraint|
        try_flat_map(constraint.signature.args, collector(true, store, current_level, fuel))
}

/// The variables of the arguments of all the constraints that a generalisation at this
/// point would quantify over.
pub fn find_all_typevars_in_traits(traits: &Vec<TraitConstraint>, cache: &ModuleCache) -> (result: Result<
    Vec<TypeVariableId>,
    Fault,
>)
    ensures
        collects(
            result,
            try_flat_map(
                constraints_of(traits@),
                constraint_variables(cache.store(), cache.current_level, RECURSION_LIMIT as nat),
            ),
        ),
{
    let ghost all = constraints_of(traits@);
    let ghost f = constraint_variables(cache.store(), cache.current_level, RECURSION_LIMIT as nat);
    let mut typevars: Vec<TypeVariableId> = Vec::new();
    let mut i: usize = 0;
    proof {
        lemma_try_flat_map_start(all, f);
    }
    while i < traits.len()
        invariant
            i <= traits.len(),
            all == constraints_of(traits@),
            f == constraint_variables(cache.store(), cache.current_level, RECURSION_LIMIT as nat),
            try_flat_map(all, f) == after(typevars@, try_flat_map(all.subrange(i as int, all.len() as int), f)),
        decreases traits.len() - i,
    {
        proof {
            lemma_try_flat_map_step(all, f, typevars@, i as int);
            assert(all[i as int] == traits@[i as int]@);
        }
        match find_in_each(&traits[i].required.signature.args, true, cache, RECURSION_LIMIT) {
            Err(fault) => {
                return Err(fault);
            },
            Ok(found) => {
                let mut found = found;
                typevars.append(&mut found);
            },
        }
        i += 1;
    }
    proof {
        lemma_try_flat_map_end(all, f, typevars@);
    }
    Ok(typevars)
}

/// Is the sequence in strictly rising order?
pub open spec fn strictly_rising(ids: Seq<TypeVariableId>) -> bool {
    forall|i: int, j: int| 0 <= i < j < ids.len() ==> ids[i] < ids[j]
}

/// How many of the first items, all of them below `id`, come before the first that is not.
pub open spec fn rank(sorted: Seq<TypeVariableId>, id: TypeVariableId, from: nat) -> nat
    decreases sorted.len() - from,
{
    if from >= sorted.len() || sorted[from as int] >= id {
        from
    } else {
        rank(sorted, id, from + 1)
    }
}

/// The rising sequence with `id` put in its place, unless it is there.
pub open spec fn with_id(sorted: Seq<TypeVariableId>, id: TypeVariableId) -> Seq<TypeVariableId> {
    let at = rank(sorted, id, 0);
    if at < sorted.len() && sorted[at as int] == id {
        sorted
    } else {
        sorted.insert(at as int, id)
    }
}

/// The first `n` ids in rising order, each once.
pub open spec fn sorted_distinct(ids: Seq<TypeVariableId>, n: nat) -> Seq<TypeVariableId>
    decreases n,
{
    if n == 0 || n > ids.len() {
        Seq::empty()
    } else {
        with_id(sorted_distinct(ids, (n - 1) as nat), ids[n - 1])
    }
}

/// The ids in rising order, each once.
#[verifier::spinoff_prover]
#[verifier::rlimit(60)]
pub fn sort_and_dedup(ids: &Vec<TypeVariableId>) -> (sorted: Vec<TypeVariableId>)
    ensures
        strictly_rising(sorted@),
        forall|id: TypeVariableId| sorted@.contains(id) <==> ids@.contains(id),
        sorted@ == sorted_distinct(ids@, ids@.len()),
{
    let mut sorted: Vec<TypeVariableId> = Vec::new();
    let mut i: usize = 0;
    while i < ids.len()
        invariant
            i <= ids.len(),
            strictly_rising(sorted@),
            forall|id: TypeVariableId| sorted@.contains(id) <==> ids@.take(i as int).contains(id),
            sorted@ == sorted_distinct(ids@, i as nat),
        decreases ids.len() - i,
    {
        let id = ids[i];
        let mut at: usize = 0;
        while at < sorted.len() && sorted[at] < id
            invariant
                at <= sorted.len(),
                forall|j: int| 0 <= j < at ==> sorted@[j] < id,
                rank(sorted@, id, 0) == rank(sorted@, id, at as nat),
            decreases sorted.len() - at,
        {
            at += 1;
        }
        assert(rank(sorted@, id, 0) == at);
        let ghost before = sorted@;
        let present = at < sorted.len() && sorted[at] == id;
        if !present {
            sorted.insert(at, id);
            proof {
                assert forall|a: int, b: int| 0 <= a < b < sorted@.len() implies sorted@[a] < sorted@[b] by {
                    if b < at {
                        assert(sorted@[a] == before[a] && sorted@[b] == before[b]);
                    } else if b == at {
                        assert(sorted@[a] == before[a]);
                    } else if a < at {
                        assert(sorted@[a] == before[a] && sorted@[b] == before[b - 1]);
                    } else if a == at {
                        assert(sorted@[b] == before[b - 1]);
                        assert(before[at as int] >= id);
                        assert(before[at as int] <= before[b - 1]);
                    } else {
                        assert(sorted@[a] == before[a - 1] && sorted@[b] == before[b - 1]);
                    }
                }
            }
        }
        proof {
            let shorter = ids@.take(i as int);
            let longer = ids@.take(i + 1);
            assert(longer =~= shorter.push(id));
            assert forall|x: TypeVariableId| sorted@.contains(x) <==> longer.contains(x) by {
                if sorted@.contains(x) {
                    let k = choose|k: int| 0 <= k < sorted@.len() && sorted@[k] == x;
                    if present {
                        assert(before.contains(x));
                        let m = choose|m: int| 0 <= m < shorter.len() && shorter[m] == x;
                        assert(longer[m] == x);
                    } else if k == at {
                        assert(longer[i as int] == x);
                    } else {
                        if k < at {
                            assert(before[k] == x);
                        } else {
                            assert(before[k - 1] == x);
                        }
                        assert(before.contains(x));
                        let m = choose|m: int| 0 <= m < shorter.len() && shorter[m] == x;
                        assert(longer[m] == x);
                    }
                }
                if longer.contains(x) {
                    let m = choose|m: int| 0 <= m < longer.len() && longer[m] == x;
                    if m == i {
                        assert(x == id);
                        assert(sorted@[at as int] == id);
                    } else {
                        assert(shorter[m] == x);
                        assert(before.contains(x));
                        let k = choose|k: int| 0 <= k < before.len() && before[k] == x;
                        if present {
                        } else if k < at {
                            assert(sorted@[k] == x);
                        } else {
                            assert(sorted@[k + 1] == x);
                        }
                    }
                }
            }
        }
        i += 1;
    }
    assert(ids@.take(i as int) =~= ids@);
    sorted
}

/// Is `scheme` the type `t`, quantified over exactly the variables of `free`, in rising
/// order and each once, where there are any?
pub open spec fn generalizes(scheme: Scheme, t: Term, free: Seq<TypeVariableId>) -> bool {
    if free.len() == 0 {
        scheme == Scheme::MonoType(t)
    } else {
        match scheme {
            Scheme::MonoType(_) => false,
            Scheme::PolyType(quantified, body) => {
                &&& body == t
                &&& strictly_rising(quantified)
                &&& forall|id: TypeVariableId| quantified.contains(id) <==> free.contains(id)
            },
        }
    }
}

/// The type quantified over the variables of it that are unbound and above the level: in
/// rising order and each once. Without any, the type itself.
pub open spec fn generalized(t: Term, store: Seq<Binding>, current_level: usize, fuel: nat) -> Result<Scheme, Fault> {
    match free_variables(t, true, store, current_level, fuel) {
        Err(fault) => Err(fault),
        Ok(free) => if free.len() == 0 {
            Ok(Scheme::MonoType(t))
        } else {
            Ok(Scheme::PolyType(sorted_distinct(free, free.len()), t))
        },
    }
}

/// Find all type variables made inside the current definition that have not escaped it,
/// and quantify the type over them: `generalize (a -> b -> b) = forall a b. a -> b -> b`.
pub fn generalize(typ: &Type, cache: &ModuleCache) -> (result: Result<GeneralizedType, Fault>)
    ensures
        match free_variables(typ@, true, cache.store(), cache.current_level, RECURSION_LIMIT as nat) {
            Ok(free) => result matches Ok(scheme) && generalizes(scheme@, typ@, free),
            Err(fault) => result matches Err(f) && f == fault,
        },
        match generalized(typ@, cache.store(), cache.current_level, RECURSION_LIMIT as nat) {
            Ok(expected) => result matches Ok(scheme) && scheme@ == expected,
            Err(fault) => result matches Err(f) && f == fault,
        },
{
    let typevars = match find_all_typevars(typ, true, cache) {
        Err(fault) => {
            return Err(fault);
        },
        Ok(typevars) => typevars,
    };
    if typevars.len() == 0 {
        Ok(GeneralizedType::MonoType(typ.clone()))
    } else {
        let quantified = sort_and_dedup(&typevars);
        Ok(GeneralizedType::PolyType(quantified, typ.clone()))
    }
}

/// Is the variable unbound in the table, at a level above `current_level`?
pub open spec fn is_inner(store: Seq<Binding>, current_level: usize) -> spec_fn(TypeVariableId) -> bool {
    |id: TypeVariableId|
        id < store.len() && (store[id as int] matches Binding::Unbound(level, _) && is_polymorphic(
            level,
            current_level,
        ))
}

/// Every variable that is collected for generalisation is unbound and at a level above the
/// current one.
pub proof fn lemma_collected_are_inner(t: Term, store: Seq<Binding>, current_level: usize, fuel: nat)
    ensures
        free_variables(t, true, store, current_level, fuel) matches Ok(free) ==> forall|k: int|
            0 <= k < free.len() ==> is_inner(store, current_level)(#[trigger] free[k]),
    decreases fuel, 1nat,
{
    let holds = is_inner(store, current_level);
    match t {
        Term::Primitive(_) => {},
        Term::UserDefined(_) => {},
        Term::TypeVariable(id) => lemma_collected_of_binding_are_inner(id, store, current_level, fuel),
        Term::Ref(id) => lemma_collected_of_binding_are_inner(id, store, current_level, fuel),
        Term::Function(parameters, return_type, environment, _) => {
            if fuel > 0 {
                let g = (fuel - 1) as nat;
                lemma_each_collected_are_inner(parameters, store, current_level, g);
                lemma_collected_are_inner(*environment, store, current_level, g);
                lemma_collected_are_inner(*return_type, store, current_level, g);
            }
        },
        Term::TypeApplication(constructor, args) => {
            if fuel > 0 {
                let g = (fuel - 1) as nat;
                lemma_collected_are_inner(*constructor, store, current_level, g);
                lemma_each_collected_are_inner(args, store, current_level, g);
            }
        },
    }
}

proof fn lemma_collected_of_binding_are_inner(
    id: TypeVariableId,
    store: Seq<Binding>,
    current_level: usize,
    fuel: nat,
)
    ensures
        free_variables_of_binding(id, true, store, current_level, fuel) matches Ok(free) ==> forall|k: int|
            0 <= k < free.len() ==> is_inner(store, current_level)(#[trigger] free[k]),
    decreases fuel, 0nat,
{
    if id < store.len() {
        if let Binding::Bound(t) = store[id as int] {
            if fuel > 0 {
                lemma_collected_are_inner(t, store, current_level, (fuel - 1) as nat);
            }
        }
    }
}

proof fn lemma_each_collected_are_inner(types: Seq<Term>, store: Seq<Binding>, current_level: usize, fuel: nat)
    ensures
        try_flat_map(types, collector(true, store, current_level, fuel)) matches Ok(free) ==> forall|k: int|
            0 <= k < free.len() ==> is_inner(store, current_level)(#[trigger] free[k]),
    decreases fuel, 2nat,
{
    let f = collector(true, store, current_level, fuel);
    let holds = is_inner(store, current_level);
    assert forall|i: int, k: int|
        0 <= i < types.len() && f(#[trigger] types[i]) is Ok && 0 <= k < f(types[i])->Ok_0.len() implies holds(
        #[trigger] f(types[i])->Ok_0[k],
    ) by {
        lemma_collected_are_inner(types[i], store, current_level, fuel);
    }
    crate::sequence::lemma_try_flat_map_all(types, f, holds);
}

/// Generalisation spares what has escaped. A variable whose level is not above the
/// current one, which is so for every variable that the environment of the definition
/// holds, is not quantified over; nor is a variable that is bound.
pub proof fn lemma_generalize_spares_outer(
    scheme: Scheme,
    t: Term,
    store: Seq<Binding>,
    current_level: usize,
    fuel: nat,
    id: TypeVariableId,
)
    requires
        free_variables(t, true, store, current_level, fuel) is Ok,
        generalizes(scheme, t, free_variables(t, true, store, current_level, fuel)->Ok_0),
        id < store.len(),
        store[id as int] matches Binding::Unbound(level, _) ==> level.0 <= current_level,
    ensures
        scheme matches Scheme::PolyType(quantified, _) ==> !quantified.contains(id),
{
    let free = free_variables(t, true, store, current_level, fuel)->Ok_0;
    lemma_collected_are_inner(t, store, current_level, fuel);
    if free.contains(id) {
        let k = choose|k: int| 0 <= k < free.len() && free[k] == id;
        assert(is_inner(store, current_level)(free[k]));
    }
}

} // verus!
