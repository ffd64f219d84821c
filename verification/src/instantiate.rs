//! Instantiation: a polytype becomes a monotype when each quantified variable is replaced
//! by a fresh variable at the current level.
use vstd::prelude::*;
use std::collections::HashMap;
use crate::cache::{Binding, ModuleCache};
use crate::error::Fault;
use crate::generalize::{constraint_variables, find_all_typevars_in_traits};
use crate::sequence::{after, lemma_try_map_end, lemma_try_map_start, lemma_try_map_step, try_map};
use crate::substitute::{
    bind, binder, next_type_variable_id, renamed, renaming_bindings,
    replace_all_typevars_with_bindings, replace_typevars, rename, renaming_of, yield_all,
};
use crate::traits::{
    constraints_of, Constraint, ConstraintSignature, RequiredTrait, Signature, TraitConstraint,
};
use crate::types::{
    terms_of, GeneralizedType, Kind, LetBindingLevel, Scheme, Term, Type, TypeVariableId,
};
use crate::unify::{bindings_model, TypeBindings, RECURSION_LIMIT};

verus! {

broadcast use vstd::std_specs::hash::group_hash_axioms;

/// The state of an instantiation: the variable made for each variable so far, and the
/// table of bindings with the variables made.
pub struct Freshening {
    pub renaming: Map<TypeVariableId, TypeVariableId>,
    pub store: Seq<Binding>,
}

/// The state after a new variable at `level` was made for each of the first `n` of
/// `variables` in turn. With `only_new` a variable that has one already keeps it.
pub open spec fn freshen(
    variables: Seq<TypeVariableId>,
    n: nat,
    state: Freshening,
    level: LetBindingLevel,
    only_new: bool,
) -> Freshening
    decreases n,
{
    if n == 0 {
        state
    } else {
        let earlier = freshen(variables, (n - 1) as nat, state, level, only_new);
        let variable = variables[n - 1];
        if only_new && earlier.renaming.contains_key(variable) {
            earlier
        } else {
            Freshening {
                renaming: earlier.renaming.insert(variable, earlier.store.len() as usize),
                store: earlier.store.push(Binding::Unbound(level, Kind(0))),
            }
        }
    }
}

/// Making new variables leaves the variables that there are as they are, and binds none
/// of the new ones.
pub proof fn lemma_freshen_keeps_store(
    variables: Seq<TypeVariableId>,
    n: nat,
    state: Freshening,
    level: LetBindingLevel,
    only_new: bool,
)
    ensures
        state.store.is_prefix_of(freshen(variables, n, state, level, only_new).store),
        forall|i: int|
            state.store.len() <= i < freshen(variables, n, state, level, only_new).store.len() ==> (#[trigger] freshen(
                variables,
                n,
                state,
                level,
                only_new,
            ).store[i]) is Unbound,
    decreases n,
{
    if n > 0 {
        lemma_freshen_keeps_store(variables, (n - 1) as nat, state, level, only_new);
    }
}

/// The constraint with the bindings made in each of its arguments.
pub open spec fn bind_constraint(
    constraint: Constraint,
    bindings: Map<TypeVariableId, Term>,
    store: Seq<Binding>,
    fuel: nat,
) -> Result<Constraint, Fault> {
    match try_map(constraint.signature.args, binder(bindings, store, fuel)) {
        Err(fault) => Err(fault),
        Ok(args) => Ok(
            Constraint {
                signature: Signature {
                    trait_id: constraint.signature.trait_id,
                    args,
                    id: constraint.signature.id,
                },
                callsite: constraint.callsite,
                scope: constraint.scope,
            },
        ),
    }
}

/// [`bind_constraint`] as a function of the constraint alone.
pub open spec fn constraint_binder(bindings: Map<TypeVariableId, Term>, store: Seq<Binding>, fuel: nat) -> spec_fn(
    Constraint,
) -> Result<Constraint, Fault> {
    |constraint: Constraint| bind_constraint(constraint, bindings, store, fuel)
}

/// What an instantiation gives: the type, the constraints, and the replacement made for
/// each variable.
pub type Instance = (Term, Seq<Constraint>, Map<TypeVariableId, Term>);

/// The outcome of instantiating `scheme` with the `constraints`, and the table of bindings
/// after it.
///
/// A monotype is its own instance. For a polytype a new variable is made for each
/// quantified variable and replaces it in the body; then one is made for each further
/// variable of the constraints that a generalisation would quantify over; then all of them
/// are replaced in the arguments of the constraints.
pub open spec fn instance_of(
    scheme: Scheme,
    constraints: Seq<Constraint>,
    store: Seq<Binding>,
    current_level: usize,
    fuel: nat,
) -> (Result<Instance, Fault>, Seq<Binding>) {
    match scheme {
        Scheme::MonoType(t) => (Ok((t, constraints, Map::empty())), store),
        Scheme::PolyType(quantified, t) => {
            let level = LetBindingLevel(current_level);
            let first = freshen(
                quantified,
                quantified.len(),
                Freshening { renaming: Map::empty(), store },
                level,
                false,
            );
            match bind(t, renamed(first.renaming), first.store, fuel) {
                Err(fault) => (Err(fault), first.store),
                Ok(body) => match crate::sequence::try_flat_map(
                    constraints,
                    constraint_variables(first.store, current_level, fuel),
                ) {
                    Err(fault) => (Err(fault), first.store),
                    Ok(more) => {
                        let second = freshen(more, more.len(), first, level, true);
                        match try_map(
                            constraints,
                            constraint_binder(renamed(second.renaming), second.store, fuel),
                        ) {
                            Err(fault) => (Err(fault), second.store),
                            Ok(bound) => (Ok((body, bound, renamed(second.renaming))), second.store),
                        }
                    },
                },
            }
        },
    }
}

fn make_fresh(
    variables: &Vec<TypeVariableId>,
    typevars_to_replace: &mut HashMap<TypeVariableId, TypeVariableId>,
    only_new: bool,
    cache: &mut ModuleCache,
)
    ensures
        (Freshening { renaming: final(typevars_to_replace)@, store: final(cache).store() }) == freshen(
            variables@,
            variables@.len(),
            Freshening { renaming: old(typevars_to_replace)@, store: old(cache).store() },
            LetBindingLevel(old(cache).current_level),
            only_new,
        ),
        final(cache).same_but_bindings(old(cache)),
{
    let ghost start = Freshening { renaming: typevars_to_replace@, store: cache.store() };
    let ghost level = LetBindingLevel(cache.current_level);
    let mut i: usize = 0;
    while i < variables.len()
        invariant
            i <= variables.len(),
            level == LetBindingLevel(cache.current_level),
            cache.same_but_bindings(old(cache)),
            (Freshening { renaming: typevars_to_replace@, store: cache.store() }) == freshen(
                variables@,
                i as nat,
                start,
                level,
                only_new,
            ),
        decreases variables.len() - i,
    {
        let variable = variables[i];
        if only_new && typevars_to_replace.contains_key(&variable) {
        } else {
            let made = next_type_variable_id(cache);
            typevars_to_replace.insert(variable, made);
        }
        i += 1;
    }
}

fn bind_constraints(
    constraints: &Vec<TraitConstraint>,
    typevars_to_replace: &HashMap<TypeVariableId, TypeVariableId>,
    cache: &ModuleCache,
) -> (result: Result<Vec<TraitConstraint>, Fault>)
    ensures
        ({
            let expected = try_map(
                constraints_of(constraints@),
                constraint_binder(renamed(typevars_to_replace@), cache.store(), RECURSION_LIMIT as nat),
            );
            match result {
                Ok(bound) => expected == Ok::<Seq<Constraint>, Fault>(constraints_of(bound@)),
                Err(fault) => expected == Err::<Seq<Constraint>, Fault>(fault),
            }
        }),
{
    let ghost all = constraints_of(constraints@);
    let ghost f = constraint_binder(renamed(typevars_to_replace@), cache.store(), RECURSION_LIMIT as nat);
    let bindings = renaming_bindings(typevars_to_replace);
    let mut bound: Vec<TraitConstraint> = Vec::new();
    let mut i: usize = 0;
    proof {
        lemma_try_map_start(all, f);
        assert(constraints_of(bound@) =~= Seq::<Constraint>::empty());
    }
    while i < constraints.len()
        invariant
            i <= constraints.len(),
            all == constraints_of(constraints@),
            bindings_model(bindings@) == renamed(typevars_to_replace@),
            f == constraint_binder(renamed(typevars_to_replace@), cache.store(), RECURSION_LIMIT as nat),
            try_map(all, f) == after(
                constraints_of(bound@),
                try_map(all.subrange(i as int, all.len() as int), f),
            ),
        decreases constraints.len() - i,
    {
        let constraint = &constraints[i];
        proof {
            lemma_try_map_step(all, f, constraints_of(bound@), i as int);
            assert(all[i as int] == constraint@);
        }
        let args = match bind_arguments(&constraint.required.signature.args, &bindings, cache) {
            Err(fault) => {
                return Err(fault);
            },
            Ok(args) => args,
        };
        let replaced = TraitConstraint {
            required: RequiredTrait {
                signature: ConstraintSignature {
                    trait_id: constraint.required.signature.trait_id,
                    args,
                    id: constraint.required.signature.id,
                },
                callsite: constraint.required.callsite,
            },
            scope: constraint.scope,
        };
        proof {
            assert(constraints_of(bound@.push(replaced)) =~= constraints_of(bound@).push(replaced@));
        }
        bound.push(replaced);
        i += 1;
    }
    proof {
        lemma_try_map_end(all, f, constraints_of(bound@));
    }
    Ok(bound)
}

/// A use never binds a quantifier. Instantiation leaves every variable that there is as it
/// is, the quantified ones among them, and adds only variables that nothing binds:
/// whatever is bound later for an instance is bound for the new variables.
pub proof fn lemma_instance_keeps_store(
    scheme: Scheme,
    constraints: Seq<Constraint>,
    store: Seq<Binding>,
    current_level: usize,
    fuel: nat,
)
    ensures
        store.is_prefix_of(instance_of(scheme, constraints, store, current_level, fuel).1),
        forall|i: int|
            store.len() <= i < instance_of(scheme, constraints, store, current_level, fuel).1.len() ==> (
            #[trigger] instance_of(scheme, constraints, store, current_level, fuel).1[i]) is Unbound,
{
    match scheme {
        Scheme::MonoType(_) => {},
        Scheme::PolyType(quantified, t) => {
            let level = LetBindingLevel(current_level);
            let start = Freshening { renaming: Map::empty(), store };
            let first = freshen(quantified, quantified.len(), start, level, false);
            lemma_freshen_keeps_store(quantified, quantified.len(), start, level, false);
            if let Ok(_) = bind(t, renamed(first.renaming), first.store, fuel) {
                if let Ok(more) = crate::sequence::try_flat_map(
                    constraints,
                    constraint_variables(first.store, current_level, fuel),
                ) {
                    lemma_freshen_keeps_store(more, more.len(), first, level, true);
                    let second = freshen(more, more.len(), first, level, true);
                    assert forall|i: int| store.len() <= i < second.store.len() implies (
                    #[trigger] second.store[i]) is Unbound by {
                        if i < first.store.len() {
                            assert(second.store[i] == first.store[i]);
                        }
                    }
                }
            }
        },
    }
}

/// The given types with the bindings made in each.
pub fn bind_arguments(types: &Vec<Type>, bindings: &TypeBindings, cache: &ModuleCache) -> (result: Result<
    Vec<Type>,
    Fault,
>)
    ensures
        yield_all(
            result,
            try_map(terms_of(types@), binder(bindings_model(bindings@), cache.store(), RECURSION_LIMIT as nat)),
        ),
{
    let ghost all = terms_of(types@);
    let ghost f = binder(bindings_model(bindings@), cache.store(), RECURSION_LIMIT as nat);
    let mut bound: Vec<Type> = Vec::new();
    let mut i: usize = 0;
    proof {
        lemma_try_map_start(all, f);
        assert(terms_of(bound@) =~= Seq::<Term>::empty());
    }
    while i < types.len()
        invariant
            i <= types.len(),
            all == terms_of(types@),
            f == binder(bindings_model(bindings@), cache.store(), RECURSION_LIMIT as nat),
            try_map(all, f) == after(terms_of(bound@), try_map(all.subrange(i as int, all.len() as int), f)),
        decreases types.len() - i,
    {
        proof {
            lemma_try_map_step(all, f, terms_of(bound@), i as int);
            assert(all[i as int] == types@[i as int]@);
        }
        match crate::substitute::bind_typevars(&types[i], bindings, cache) {
            Err(fault) => {
                return Err(fault);
            },
            Ok(typ) => {
                proof {
                    crate::types::lemma_terms_of_push(bound@, typ);
                }
                bound.push(typ);
            },
        }
        i += 1;
    }
    proof {
        lemma_try_map_end(all, f, terms_of(bound@));
    }
    Ok(bound)
}

impl GeneralizedType {
    /// Specialises the polytype by replacing the quantified variables consistently by new
    /// type variables: `instantiate (forall a b. a -> b -> a) = c -> d -> c`. Returns the
    /// type, the given constraints with the variables replaced in their arguments as
    /// well, and the replacements made.
    pub fn instantiate(&self, constraints: Vec<TraitConstraint>, cache: &mut ModuleCache) -> (result: Result<
        (Type, Vec<TraitConstraint>, TypeBindings),
        Fault,
    >)
        ensures
            ({
                let (expected, store) = instance_of(
                    self@,
                    constraints_of(constraints@),
                    old(cache).store(),
                    old(cache).current_level,
                    RECURSION_LIMIT as nat,
                );
                &&& final(cache).store() == store
                &&& match result {
                    Ok((typ, bound, bindings)) => expected == Ok::<Instance, Fault>(
                        (typ@, constraints_of(bound@), bindings_model(bindings@)),
                    ),
                    Err(fault) => expected == Err::<Instance, Fault>(fault),
                }
            }),
            final(cache).same_but_bindings(old(cache)),
    {
        match self {
            GeneralizedType::MonoType(typ) => {
                let bindings: TypeBindings = TypeBindings::new();
                assert(bindings_model(bindings@) =~= Map::<TypeVariableId, Term>::empty());
                Ok((typ.clone(), constraints, bindings))
            },
            GeneralizedType::PolyType(typevars, typ) => {
                let mut typevars_to_replace: HashMap<TypeVariableId, TypeVariableId> = HashMap::new();
                make_fresh(typevars, &mut typevars_to_replace, false, cache);
                let typ = match replace_typevars(typ, &typevars_to_replace, cache) {
                    Err(fault) => {
                        return Err(fault);
                    },
                    Ok(typ) => typ,
                };
                let more = match find_all_typevars_in_traits(&constraints, cache) {
                    Err(fault) => {
                        return Err(fault);
                    },
                    Ok(more) => more,
                };
                make_fresh(&more, &mut typevars_to_replace, true, cache);
                let bound = match bind_constraints(&constraints, &typevars_to_replace, cache) {
                    Err(fault) => {
                        return Err(fault);
                    },
                    Ok(bound) => bound,
                };
                let type_bindings = renaming_bindings(&typevars_to_replace);
                Ok((typ, bound, type_bindings))
            },
        }
    }
}

/// Like instantiation, but with the replacements kept in `bindings` from one call to the
/// next, so that all the definitions of one impl are given the same variables. Replaces
/// every variable, also those of a monotype, and returns a monotype.
pub fn instantiate_impl_with_bindings(typ: &GeneralizedType, bindings: &mut TypeBindings, cache: &mut ModuleCache) -> (result:
    Result<GeneralizedType, Fault>)
    ensures
        ({
            let (expected, state) = rename(
                typ.body(),
                renaming_of(old(bindings), old(cache)),
                LetBindingLevel(old(cache).current_level),
                RECURSION_LIMIT as nat,
            );
            &&& renaming_of(final(bindings), final(cache)) == state
            &&& match result {
                Ok(scheme) => expected matches Ok(t) && scheme@ == Scheme::MonoType(t),
                Err(fault) => expected == Err::<Term, Fault>(fault),
            }
        }),
        final(cache).same_but_bindings(old(cache)),
{
    match replace_all_typevars_with_bindings(typ.remove_forall(), bindings, cache) {
        Err(fault) => Err(fault),
        Ok(replaced) => Ok(GeneralizedType::MonoType(replaced)),
    }
}

} // verus!
