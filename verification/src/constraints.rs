//! The obligations that a use of a definition brings, and the matching of an obligation
//! against those that a trait or an impl provides.
use vstd::prelude::*;
use crate::cache::{Binding, ModuleCache};
use crate::error::Location;
use crate::traits::{
    constraints_of, passed_on, required_of, Callsite, Constraint, ConstraintSignature, RequiredTrait,
    Signature, TraitConstraint,
};
use crate::types::{
    clone_types, terms_of, DefinitionInfoId, ImplScopeId, Term, TraitConstraintId, TraitInfoId, Type,
    TypeInfoId, VariableId, PAIR_TYPE,
};
use crate::unify::{
    commit, try_unify_all_with_bindings, unify_lists, Pending, UnificationBindings, RECURSION_LIMIT,
};

verus! {

/// The obligations that a use of a definition at `callsite` brings, where the definition
/// requires `required` and obligations are numbered from `next`: each required trait
/// passed on under a new id, and then, if the definition is a member of a trait, that
/// trait itself, arising directly at the use.
pub open spec fn obligations(
    required: Seq<(Signature, Callsite)>,
    trait_info: Option<(TraitInfoId, Seq<Term>)>,
    scope: ImplScopeId,
    callsite: VariableId,
    next: u32,
) -> Seq<Constraint> {
    let passed = Seq::new(
        required.len(),
        |i: int| passed_on(required[i], scope, callsite, TraitConstraintId((next + i) as u32)),
    );
    match trait_info {
        None => passed,
        Some((trait_id, args)) => passed.push(
            Constraint {
                signature: Signature {
                    trait_id,
                    args,
                    id: TraitConstraintId((next + required.len()) as u32),
                },
                callsite: Callsite::Direct(callsite),
                scope,
            },
        ),
    }
}

/// The model of the trait that a definition is a member of.
pub open spec fn trait_info_of(trait_info: Option<(TraitInfoId, Vec<Type>)>) -> Option<(TraitInfoId, Seq<Term>)> {
    match trait_info {
        None => None,
        Some((trait_id, args)) => Some((trait_id, terms_of(args@))),
    }
}

/// The obligations that the use of the definition `id` at `callsite` brings. Each gets the
/// next free id.
pub fn to_trait_constraints(
    id: DefinitionInfoId,
    scope: ImplScopeId,
    callsite: VariableId,
    cache: &mut ModuleCache,
) -> (traits: Vec<TraitConstraint>)
    requires
        id.0 < old(cache).definition_infos@.len(),
        old(cache).current_trait_constraint_id + old(cache).definition_infos@[id.0 as int].required_traits@.len()
            < u32::MAX,
    ensures
        constraints_of(traits@) == obligations(
            required_of(old(cache).definition_infos@[id.0 as int].required_traits@),
            trait_info_of(old(cache).definition_infos@[id.0 as int].trait_info),
            scope,
            callsite,
            old(cache).current_trait_constraint_id,
        ),
        final(cache).current_trait_constraint_id == old(cache).current_trait_constraint_id + traits@.len(),
        final(cache).type_bindings == old(cache).type_bindings,
        final(cache).current_level == old(cache).current_level,
        final(cache).diagnostics == old(cache).diagnostics,
        final(cache).same_infos(old(cache)),
{
    let ghost required = required_of(cache.definition_infos@[id.0 as int].required_traits@);
    let ghost start = cache.current_trait_constraint_id;
    let mut traits: Vec<TraitConstraint> = Vec::new();
    let count = cache.definition_infos[id.0].required_traits.len();
    let mut i: usize = 0;
    while i < count
        invariant
            i <= count,
            id.0 < cache.definition_infos@.len(),
            count == cache.definition_infos@[id.0 as int].required_traits@.len(),
            required == required_of(cache.definition_infos@[id.0 as int].required_traits@),
            start + count < u32::MAX,
            cache.current_trait_constraint_id == start + i,
            cache.type_bindings == old(cache).type_bindings,
            cache.current_level == old(cache).current_level,
            cache.diagnostics == old(cache).diagnostics,
            cache.same_infos(old(cache)),
            traits@.len() == i,
            forall|j: int|
                0 <= j < i ==> (#[trigger] traits@[j])@ == passed_on(
                    required[j],
                    scope,
                    callsite,
                    TraitConstraintId((start + j) as u32),
                ),
        decreases count - i,
    {
        let next = TraitConstraintId(cache.current_trait_constraint_id);
        cache.current_trait_constraint_id = cache.current_trait_constraint_id + 1;
        let constraint = cache.definition_infos[id.0].required_traits[i].as_constraint(scope, callsite, next);
        traits.push(constraint);
        i += 1;
    }
    match &cache.definition_infos[id.0].trait_info {
        Some((trait_id, args)) => {
            let next = TraitConstraintId(cache.current_trait_constraint_id);
            let direct = TraitConstraint {
                required: RequiredTrait {
                    signature: ConstraintSignature { trait_id: *trait_id, args: clone_types(args), id: next },
                    callsite: Callsite::Direct(callsite),
                },
                scope,
            };
            cache.current_trait_constraint_id = cache.current_trait_constraint_id + 1;
            traits.push(direct);
        },
        None => {},
    }
    proof {
        assert(constraints_of(traits@) =~= obligations(
            required,
            trait_info_of(old(cache).definition_infos@[id.0 as int].trait_info),
            scope,
            callsite,
            start,
        ));
    }
    traits
}

/// The tuple of the given types: nested pairs, the last pair holding the last two types.
pub open spec fn tuple_of(types: Seq<Term>) -> Term
    decreases types.len(),
{
    if types.len() <= 1 {
        types[0]
    } else {
        Term::TypeApplication(
            Box::new(Term::UserDefined(TypeInfoId(PAIR_TYPE))),
            seq![types[0], tuple_of(types.drop_first())],
        )
    }
}

/// The types `front` wrapped around `inner`, the last of them innermost.
pub open spec fn wrap(front: Seq<Term>, inner: Term) -> Term
    decreases front.len(),
{
    if front.len() == 0 {
        inner
    } else {
        wrap(
            front.drop_last(),
            Term::TypeApplication(
                Box::new(Term::UserDefined(TypeInfoId(PAIR_TYPE))),
                seq![front.last(), inner],
            ),
        )
    }
}

proof fn lemma_wrap_first(front: Seq<Term>, inner: Term)
    requires
        front.len() > 0,
    ensures
        wrap(front, inner) == Term::TypeApplication(
            Box::new(Term::UserDefined(TypeInfoId(PAIR_TYPE))),
            seq![front[0], wrap(front.drop_first(), inner)],
        ),
    decreases front.len(),
{
    if front.len() == 1 {
        assert(front.drop_last().len() == 0);
        assert(front.drop_first().len() == 0);
    } else {
        let pair = Term::TypeApplication(
            Box::new(Term::UserDefined(TypeInfoId(PAIR_TYPE))),
            seq![front.last(), inner],
        );
        lemma_wrap_first(front.drop_last(), pair);
        assert(front.drop_last().drop_first() =~= front.drop_first().drop_last());
        assert(front.drop_last()[0] == front[0]);
        assert(front.drop_first().last() == front.last());
    }
}

/// A tuple is its last type with the others wrapped around it.
pub proof fn lemma_tuple_is_wrapped(types: Seq<Term>)
    requires
        types.len() > 0,
    ensures
        tuple_of(types) == wrap(types.drop_last(), types.last()),
    decreases types.len(),
{
    if types.len() == 1 {
        assert(types.drop_last().len() == 0);
    } else {
        lemma_tuple_is_wrapped(types.drop_first());
        lemma_wrap_first(types.drop_last(), types.last());
        assert(types.drop_last().drop_first() =~= types.drop_first().drop_last());
        assert(types.drop_first().last() == types.last());
        assert(types.drop_last()[0] == types[0]);
    }
}

/// Makes a tuple out of nested pairs with elements from the given types. Since there is no
/// type to end the nesting with, at least 2 types are needed.
pub fn make_tuple_type(types: Vec<Type>) -> (tuple: Type)
    requires
        types@.len() > 1,
    ensures
        tuple@ == tuple_of(terms_of(types@)),
{
    let ghost all = terms_of(types@);
    let mut types = types;
    proof {
        lemma_tuple_is_wrapped(all);
        assert(terms_of(types@.drop_last()) =~= all.drop_last());
    }
    let mut ret = types.pop().unwrap();
    while types.len() > 0
        invariant
            tuple_of(all) == wrap(terms_of(types@), ret@),
        decreases types.len(),
    {
        let ghost front = terms_of(types@);
        let ghost inner = ret@;
        proof {
            assert(terms_of(types@.drop_last()) =~= front.drop_last());
            assert(front.last() == types@.last()@);
        }
        let typ = types.pop().unwrap();
        let mut both: Vec<Type> = Vec::new();
        both.push(typ);
        both.push(ret);
        proof {
            assert(both@[0]@ == front.last());
            assert(both@[1]@ == inner);
            assert(terms_of(both@) =~= seq![front.last(), inner]);
        }
        let pair = Type::UserDefined(TypeInfoId(PAIR_TYPE));
        assert(pair@ == Term::UserDefined(TypeInfoId(PAIR_TYPE)));
        ret = Type::TypeApplication(Box::new(pair), both);
        proof {
            assert(ret@ == Term::TypeApplication(
                Box::new(Term::UserDefined(TypeInfoId(PAIR_TYPE))),
                seq![front.last(), inner],
            ));
            assert(terms_of(types@) == front.drop_last());
            assert(wrap(front, inner) == wrap(front.drop_last(), ret@));
        }
    }
    ret
}

/// The first of the candidates that is for the trait of `used` and whose arguments unify
/// with those of `used`, from position `from` on: its id and the bindings that unify them.
pub open spec fn first_match(used: Signature, candidates: Seq<Signature>, from: int, store: Seq<Binding>) -> Option<
    (TraitConstraintId, Pending)
>
    decreases candidates.len() - from,
{
    if from < 0 || from >= candidates.len() {
        None
    } else {
        let candidate = candidates[from];
        let (outcome, pending) = unify_lists(
            used.args,
            candidate.args,
            Pending { bindings: Map::empty(), level_bindings: Seq::empty() },
            store,
            RECURSION_LIMIT as nat,
        );
        if candidate.trait_id == used.trait_id && outcome is Ok {
            Some((candidate.id, pending))
        } else {
            first_match(used, candidates, from + 1, store)
        }
    }
}

/// The signatures of the required traits, in order.
pub open spec fn signatures_of(traits: Seq<RequiredTrait>) -> Seq<Signature> {
    Seq::new(traits.len(), |i: int| traits[i].signature@)
}

/// The models of the signatures, in order.
pub open spec fn given_of(given: Seq<ConstraintSignature>) -> Seq<Signature> {
    Seq::new(given.len(), |i: int| given[i]@)
}

/// Looks for a trait among those that may be used, first among `useable_traits` and then
/// among `given`, that the used trait can be: the same trait, with arguments that unify.
/// The bindings that unify them are committed to the cache, and the id of the trait found
/// is returned.
pub fn find_matching_trait(
    used: &RequiredTrait,
    useable_traits: &Vec<RequiredTrait>,
    given: &Vec<ConstraintSignature>,
    cache: &mut ModuleCache,
) -> (found: Option<TraitConstraintId>)
    ensures
        match first_match(
            used.signature@,
            signatures_of(useable_traits@) + given_of(given@),
            0,
            old(cache).store(),
        ) {
            Some((id, pending)) => found == Some(id) && final(cache).store() == commit(
                old(cache).store(),
                pending,
            ),
            None => found.is_none() && final(cache).store() == old(cache).store(),
        },
        final(cache).same_but_bindings(old(cache)),
{
    let ghost candidates = signatures_of(useable_traits@) + given_of(given@);
    let ghost store = cache.store();
    let mut i: usize = 0;
    while i < useable_traits.len()
        invariant
            i <= useable_traits.len(),
            candidates == signatures_of(useable_traits@) + given_of(given@),
            store == cache.store(),
            cache == old(cache),
            first_match(used.signature@, candidates, 0, store) == first_match(
                used.signature@,
                candidates,
                i as int,
                store,
            ),
        decreases useable_traits.len() - i,
    {
        let useable = &useable_traits[i];
        assert(candidates[i as int] == useable.signature@);
        if useable.signature.trait_id == used.signature.trait_id {
            match try_unify_all_with_bindings(
                &used.signature.args,
                &useable.signature.args,
                UnificationBindings::empty(),
                Location::builtin(),
                cache,
            ) {
                Ok(bindings) => {
                    proof {
                        lemma_lists_bind_known(used.signature@.args, useable.signature@.args, store);
                        assert forall|id: crate::types::TypeVariableId|
                            bindings.bindings@.contains_key(id) implies id < store.len() by {
                            assert(bindings@.bindings.contains_key(id));
                        }
                    }
                    bindings.perform(cache);
                    return Some(useable.signature.id);
                },
                Err(_) => {},
            }
        }
        i += 1;
    }
    let mut k: usize = 0;
    while k < given.len()
        invariant
            k <= given.len(),
            candidates == signatures_of(useable_traits@) + given_of(given@),
            store == cache.store(),
            cache == old(cache),
            first_match(used.signature@, candidates, 0, store) == first_match(
                used.signature@,
                candidates,
                useable_traits@.len() + k,
                store,
            ),
        decreases given.len() - k,
    {
        let useable = &given[k];
        assert(candidates[useable_traits@.len() + k] == useable@);
        if useable.trait_id == used.signature.trait_id {
            match try_unify_all_with_bindings(
                &used.signature.args,
                &useable.args,
                UnificationBindings::empty(),
                Location::builtin(),
                cache,
            ) {
                Ok(bindings) => {
                    proof {
                        lemma_lists_bind_known(used.signature@.args, useable@.args, store);
                        assert forall|id: crate::types::TypeVariableId|
                            bindings.bindings@.contains_key(id) implies id < store.len() by {
                            assert(bindings@.bindings.contains_key(id));
                        }
                    }
                    bindings.perform(cache);
                    return Some(useable.id);
                },
                Err(_) => {},
            }
        }
        k += 1;
    }
    None
}

/// Unifying two lists from no bindings binds and lowers only variables of the table.
proof fn lemma_lists_bind_known(types1: Seq<Term>, types2: Seq<Term>, store: Seq<Binding>)
    ensures
        crate::extension::extends(
            Pending { bindings: Map::empty(), level_bindings: Seq::empty() },
            unify_lists(
                types1,
                types2,
                Pending { bindings: Map::empty(), level_bindings: Seq::empty() },
                store,
                RECURSION_LIMIT as nat,
            ).1,
            store,
        ),
{
    let nothing = Pending { bindings: Map::empty(), level_bindings: Seq::empty() };
    if types1.len() == types2.len() {
        crate::extension::lemma_unify_all_extends(types1, types2, nothing, store, RECURSION_LIMIT as nat);
    }
}

} // verus!
