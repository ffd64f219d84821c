//! Inference of the impls of traits: each definition of an impl is checked against the
//! type that the trait declares for it, and may use no trait but those given to it.
use vstd::prelude::*;
use crate::ast::{NodeKind, Program};
use crate::cache::ModuleCache;
use crate::constraints::{find_matching_trait, given_of, signatures_of};
use crate::error::{Fault, Location, UnificationError};
use crate::infer::infer_node;
use crate::infer_cache::{set_definition_type, set_level, set_required_ids};
use crate::infer_model::{note_of, shape_of};
use crate::infer_nodes::{finds, form_of, Form};
use crate::infer_patterns::{leaves, mind};
use crate::infer_rules::{place, Mind};
use crate::infer_state::{report, reported};
use crate::infer_walk::{
    bind_pattern_in_impl, bind_patterns_in_impl, check_all_given, check_given, given_ids, infer,
    infer_program, lookup_member, member_named, member_traits, member_type, report_each,
};
use crate::resolve::{lemma_knowledge_but_store, resolve_traits};
use crate::instantiate::instantiate_impl_with_bindings;
use crate::substitute::{replace_all_typevars, shorter, zip_bindings};
use crate::traits::{
    constraints_of, required_of, Constraint, ConstraintSignature, RequiredTrait, TraitConstraint,
};
use crate::types::{
    clone_types, terms_of, AstId, DefinitionInfoId, GeneralizedType, ImplInfoId, PrimitiveType, Term,
    TraitConstraintId, TraitInfoId, Type, TypeVariableId, INITIAL_LEVEL,
};
use crate::unify::{bindings_model, TypeBindings, RECURSION_LIMIT};

verus! {

/// Does `result` hold the outcome, with `after` the mind of the outcome; or the fault of
/// the outcome?
pub open spec fn gives<T, M>(result: Result<T, Fault>, model: M, expected: (Result<M, Fault>, Mind), after: Mind) -> bool {
    match expected.0 {
        Ok(value) => result is Ok && model == value && after == expected.1,
        Err(fault) => result matches Err(f) && f == fault,
    }
}

/// The member of the trait with the name.
pub fn find_member(cache: &ModuleCache, trait_id: TraitInfoId, name: &String) -> (found: Option<DefinitionInfoId>)
    requires
        trait_id.0 < cache.trait_infos@.len(),
    ensures
        found == member_named(cache.knowledge(), cache.knowledge().traits[trait_id.0 as int].definitions, name@, 0),
        found matches Some(member) ==> member.0 < cache.definition_infos@.len(),
{
    let ghost k = cache.knowledge();
    assert(k.traits[trait_id.0 as int] == cache.trait_infos@[trait_id.0 as int]@);
    let members = &cache.trait_infos[trait_id.0].definitions;
    let mut i: usize = members.len();
    while i > 0
        invariant
            i <= members@.len(),
            k == cache.knowledge(),
            members@ == k.traits[trait_id.0 as int].definitions,
            member_named(k, members@, name@, i as nat) matches Some(member) ==> member.0
                < cache.definition_infos@.len(),
        decreases i,
    {
        i -= 1;
        let member = members[i];
        if member.0 < cache.definition_infos.len() {
            assert(k.definitions[member.0 as int] == cache.definition_infos@[member.0 as int]@);
        }
    }
    let mut at: usize = 0;
    while at < members.len()
        invariant
            at <= members@.len(),
            k == cache.knowledge(),
            members@ == k.traits[trait_id.0 as int].definitions,
            member_named(k, members@, name@, 0) == member_named(k, members@, name@, at as nat),
        decreases members@.len() - at,
    {
        let member = members[at];
        if member.0 < cache.definition_infos.len() {
            assert(k.definitions[member.0 as int] == cache.definition_infos@[member.0 as int]@);
            if cache.definition_infos[member.0].name == *name {
                return Some(member);
            }
        }
        at += 1;
    }
    None
}

/// Looks the member with the name up in the trait, and infers the declaration of the
/// trait first where the member has no type yet.
pub fn lookup_definition_in_trait(
    program: &mut Program,
    name: &String,
    trait_id: TraitInfoId,
    cache: &mut ModuleCache,
    fuel: u32,
) -> (result: Result<DefinitionInfoId, Fault>)
    ensures
        final(program).outline() == old(program).outline(),
        ({
            let expected = lookup_member(
                old(program).outline(),
                mind(old(program), old(cache)),
                name@,
                trait_id,
                fuel as nat,
            );
            match expected.0 {
                Ok(member) => result == Ok::<DefinitionInfoId, Fault>(member) && mind(final(program), final(cache))
                    == expected.1,
                Err(fault) => result == Err::<DefinitionInfoId, Fault>(fault),
            }
        }),
    decreases fuel, 5nat, 0nat,
{
    reveal(lookup_member);
    reveal(infer);
    assert(cache.knowledge().traits.len() == cache.trait_infos@.len());
    if trait_id.0 >= cache.trait_infos.len() {
        return Err(Fault::UnknownDefinition(trait_id.0));
    }
    assert(cache.knowledge().traits[trait_id.0 as int] == cache.trait_infos@[trait_id.0 as int]@);
    let member = match find_member(cache, trait_id, name) {
        None => {
            return Err(Fault::Malformed);
        },
        Some(member) => member,
    };
    assert(cache.knowledge().definitions[member.0 as int] == cache.definition_infos@[member.0 as int]@);
    if cache.definition_infos[member.0].typ.is_some() {
        return Ok(member);
    }
    let node = match cache.trait_infos[trait_id.0].trait_node {
        None => {
            return Err(Fault::Malformed);
        },
        Some(node) => node,
    };
    if fuel == 0 {
        return Err(Fault::RecursionLimit);
    }
    match infer_node(program, node, cache, fuel) {
        Err(fault) => {
            return Err(fault);
        },
        Ok(_) => {},
    }
    lookup_definition_in_trait(program, name, trait_id, cache, fuel - 1)
}

/// The type that the trait declares for the member with the name.
pub fn lookup_definition_type_in_trait(
    program: &mut Program,
    name: &String,
    trait_id: TraitInfoId,
    cache: &mut ModuleCache,
    fuel: u32,
) -> (result: Result<GeneralizedType, Fault>)
    ensures
        final(program).outline() == old(program).outline(),
        ({
            let expected = member_type(
                old(program).outline(),
                mind(old(program), old(cache)),
                name@,
                trait_id,
                fuel as nat,
            );
            match expected.0 {
                Ok(scheme) => result matches Ok(found) && found@ == scheme && mind(final(program), final(cache))
                    == expected.1,
                Err(fault) => result matches Err(f) && f == fault,
            }
        }),
    decreases fuel, 5nat, 1nat,
{
    reveal(member_type);
    reveal(lookup_member);
    let member = match lookup_definition_in_trait(program, name, trait_id, cache, fuel) {
        Err(fault) => {
            return Err(fault);
        },
        Ok(member) => member,
    };
    assert(cache.knowledge().definitions.len() == cache.definition_infos@.len());
    if member.0 >= cache.definition_infos.len() {
        return Err(Fault::UnknownDefinition(member.0));
    }
    assert(cache.knowledge().definitions[member.0 as int] == cache.definition_infos@[member.0 as int]@);
    match &cache.definition_infos[member.0].typ {
        None => Err(Fault::Malformed),
        Some(scheme) => Ok(scheme.clone()),
    }
}

/// The traits that the trait requires of the users of the member with the name.
pub fn lookup_definition_traits_in_trait(
    program: &mut Program,
    name: &String,
    trait_id: TraitInfoId,
    cache: &mut ModuleCache,
    fuel: u32,
) -> (result: Result<Vec<RequiredTrait>, Fault>)
    ensures
        final(program).outline() == old(program).outline(),
        ({
            let expected = member_traits(
                old(program).outline(),
                mind(old(program), old(cache)),
                name@,
                trait_id,
                fuel as nat,
            );
            match expected.0 {
                Ok(traits) => result matches Ok(found) && required_of(found@) == traits && mind(
                    final(program),
                    final(cache),
                ) == expected.1,
                Err(fault) => result matches Err(f) && f == fault,
            }
        }),
    decreases fuel, 5nat, 1nat,
{
    reveal(member_traits);
    reveal(lookup_member);
    let member = match lookup_definition_in_trait(program, name, trait_id, cache, fuel) {
        Err(fault) => {
            return Err(fault);
        },
        Ok(member) => member,
    };
    assert(cache.knowledge().definitions.len() == cache.definition_infos@.len());
    if member.0 >= cache.definition_infos.len() {
        return Err(Fault::UnknownDefinition(member.0));
    }
    assert(cache.knowledge().definitions[member.0 as int] == cache.definition_infos@[member.0 as int]@);
    Ok(copy_required(&cache.definition_infos[member.0].required_traits))
}

/// A copy of the required traits.
pub fn copy_required(traits: &Vec<RequiredTrait>) -> (copy: Vec<RequiredTrait>)
    ensures
        required_of(copy@) == required_of(traits@),
        signatures_of(copy@) == signatures_of(traits@),
{
    let mut copy: Vec<RequiredTrait> = Vec::new();
    let mut i: usize = 0;
    while i < traits.len()
        invariant
            i <= traits@.len(),
            copy@.len() == i,
            forall|j: int| 0 <= j < i ==> (#[trigger] copy@[j])@ == traits@[j]@,
        decreases traits@.len() - i,
    {
        copy.push(traits[i].clone());
        i += 1;
    }
    assert(required_of(copy@) =~= required_of(traits@));
    assert(signatures_of(copy@) =~= signatures_of(traits@)) by {
        assert forall|j: int| 0 <= j < copy@.len() implies copy@[j].signature@ == traits@[j].signature@ by {
            assert(copy@[j]@ == traits@[j]@);
        }
    }
    copy
}

/// A copy of the signatures.
pub fn copy_signatures(given: &Vec<ConstraintSignature>) -> (copy: Vec<ConstraintSignature>)
    ensures
        given_of(copy@) == given_of(given@),
{
    let mut copy: Vec<ConstraintSignature> = Vec::new();
    let mut i: usize = 0;
    while i < given.len()
        invariant
            i <= given@.len(),
            copy@.len() == i,
            forall|j: int| 0 <= j < i ==> (#[trigger] copy@[j])@ == given@[j]@,
        decreases given@.len() - i,
    {
        copy.push(given[i].clone());
        i += 1;
    }
    assert(given_of(copy@) =~= given_of(given@));
    copy
}

/// Binds the pattern of a definition of an impl: each name in it gets the type that the
/// trait declares for it, with the type variables of the trait replaced as `bindings`
/// says, and every other type variable by a new one, which `bindings` then holds.
pub fn bind_irrefutable_pattern_in_impl(
    program: &mut Program,
    pattern: AstId,
    trait_id: TraitInfoId,
    bindings: &mut TypeBindings,
    cache: &mut ModuleCache,
    fuel: u32,
) -> (result: Result<(), Fault>)
    ensures
        final(program).outline() == old(program).outline(),
        gives(
            result,
            bindings_model(final(bindings)@),
            bind_pattern_in_impl(
                old(program).outline(),
                mind(old(program), old(cache)),
                pattern,
                trait_id,
                bindings_model(old(bindings)@),
                fuel as nat,
            ),
            mind(final(program), final(cache)),
        ),
    decreases fuel, 6nat, 0nat,
{
    reveal(bind_pattern_in_impl);
    reveal(bind_patterns_in_impl);
    reveal(member_type);
    if fuel == 0 {
        return Err(Fault::RecursionLimit);
    }
    assert(program.shapes().len() == program.nodes@.len());
    assert(program.locations().len() == program.nodes@.len());
    if pattern.0 >= program.nodes.len() {
        return Err(Fault::Malformed);
    }
    let location = program.nodes[pattern.0].location;
    assert(place(program.outline(), pattern) == location);
    assert(program.outline().shapes[pattern.0 as int] == shape_of(program.nodes@[pattern.0 as int].kind));
    let named = match &program.nodes[pattern.0].kind {
        NodeKind::Variable(variable) => Some((variable.name.clone(), variable.definition)),
        _ => None,
    };
    match named {
        Some((name, definition)) => {
            let scheme = match lookup_definition_type_in_trait(program, &name, trait_id, cache, fuel) {
                Err(fault) => {
                    return Err(fault);
                },
                Ok(scheme) => scheme,
            };
            let id = match definition {
                None => {
                    return Err(Fault::Malformed);
                },
                Some(id) => id,
            };
            assert(cache.knowledge().definitions.len() == cache.definition_infos@.len());
            if id.0 >= cache.definition_infos.len() {
                return Err(Fault::UnknownDefinition(id.0));
            }
            let ghost before = *cache;
            let typ = match instantiate_impl_with_bindings(&scheme, bindings, cache) {
                Err(fault) => {
                    return Err(fault);
                },
                Ok(typ) => typ,
            };
            proof {
                lemma_knowledge_but_store(&before, cache);
            }
            set_definition_type(cache, id, Some(typ));
            Ok(())
        },
        None => match form_of(program, pattern) {
            Form::TypeAnnotation(lhs) => bind_irrefutable_pattern_in_impl(
                program,
                lhs,
                trait_id,
                bindings,
                cache,
                fuel - 1,
            ),
            Form::FunctionCall(_, args) => bind_each_pattern_in_impl(
                program,
                &args,
                0,
                trait_id,
                bindings,
                cache,
                fuel - 1,
            ),
            _ => {
                report(UnificationError::InvalidImplPattern, location, cache);
                Ok(())
            },
        },
    }
}

/// [`bind_irrefutable_pattern_in_impl`] for each of the patterns from position `at` on.
pub fn bind_each_pattern_in_impl(
    program: &mut Program,
    patterns: &Vec<AstId>,
    at: usize,
    trait_id: TraitInfoId,
    bindings: &mut TypeBindings,
    cache: &mut ModuleCache,
    fuel: u32,
) -> (result: Result<(), Fault>)
    ensures
        final(program).outline() == old(program).outline(),
        gives(
            result,
            bindings_model(final(bindings)@),
            bind_patterns_in_impl(
                old(program).outline(),
                mind(old(program), old(cache)),
                patterns@,
                at as nat,
                trait_id,
                bindings_model(old(bindings)@),
                fuel as nat,
            ),
            mind(final(program), final(cache)),
        ),
    decreases fuel, 7nat, patterns@.len() - at,
{
    reveal(bind_patterns_in_impl);
    reveal(bind_pattern_in_impl);
    if at >= patterns.len() {
        return Ok(());
    }
    match bind_irrefutable_pattern_in_impl(program, patterns[at], trait_id, bindings, cache, fuel) {
        Err(fault) => {
            return Err(fault);
        },
        Ok(()) => {},
    }
    bind_each_pattern_in_impl(program, patterns, at + 1, trait_id, bindings, cache, fuel)
}

/// Finds, for each of the used traits from position `at` on, the trait that gives it,
/// among `useable` and then among `given`, and adds its id to `ids`. A used trait that
/// nothing gives is reported.
pub fn collect_given_ids(
    used: &Vec<RequiredTrait>,
    at: usize,
    useable: &Vec<RequiredTrait>,
    given: &Vec<ConstraintSignature>,
    location: Location,
    ids: &mut Vec<TraitConstraintId>,
    cache: &mut ModuleCache,
)
    ensures
        ({
            let (found, k) = given_ids(
                old(cache).knowledge(),
                required_of(used@),
                at as nat,
                signatures_of(useable@) + given_of(given@),
                location,
            );
            final(ids)@ == old(ids)@ + found && final(cache).knowledge() == k
        }),
        final(cache).knowledge().definitions == old(cache).knowledge().definitions,
    decreases used@.len() - at,
{
    if at >= used.len() {
        assert(ids@ + Seq::<TraitConstraintId>::empty() =~= ids@);
        return ;
    }
    let ghost before = *cache;
    let ghost had = ids@;
    assert(required_of(used@)[at as int].0 == used@[at as int].signature@);
    match find_matching_trait(&used[at], useable, given, cache) {
        Some(id) => {
            proof {
                lemma_knowledge_but_store(&before, cache);
            }
            ids.push(id);
        },
        None => {
            let args = clone_types(&used[at].signature.args);
            report(UnificationError::TraitNotGiven(used[at].signature.trait_id.0, args), location, cache);
        },
    }
    let ghost middle = ids@;
    let ghost k1 = cache.knowledge();
    collect_given_ids(used, at + 1, useable, given, location, ids, cache);
    proof {
        let rest = given_ids(
            k1,
            required_of(used@),
            (at + 1) as nat,
            signatures_of(useable@) + given_of(given@),
            location,
        ).0;
        if middle.len() > had.len() {
            assert(had.push(middle[had.len() as int]) + rest =~= had + (seq![middle[had.len() as int]] + rest));
        }
    }
}

/// Checks that the definitions of the pattern of a definition of an impl use no trait but
/// those that the impl or the declaration of the trait gives them, and gives each trait
/// used the id of the trait that gives it.
pub fn check_impl_propagated_traits(
    program: &mut Program,
    pattern: AstId,
    trait_id: TraitInfoId,
    given: &Vec<ConstraintSignature>,
    cache: &mut ModuleCache,
    fuel: u32,
) -> (result: Result<(), Fault>)
    ensures
        final(program).outline() == old(program).outline(),
        leaves(
            result,
            check_given(
                old(program).outline(),
                mind(old(program), old(cache)),
                pattern,
                trait_id,
                given_of(given@),
                fuel as nat,
            ),
            mind(final(program), final(cache)),
        ),
    decreases fuel, 6nat, 0nat,
{
    reveal(check_given);
    reveal(check_all_given);
    reveal(member_traits);
    if fuel == 0 {
        return Err(Fault::RecursionLimit);
    }
    assert(program.shapes().len() == program.nodes@.len());
    assert(program.locations().len() == program.nodes@.len());
    if pattern.0 >= program.nodes.len() {
        return Err(Fault::Malformed);
    }
    let location = program.nodes[pattern.0].location;
    assert(place(program.outline(), pattern) == location);
    assert(program.outline().shapes[pattern.0 as int] == shape_of(program.nodes@[pattern.0 as int].kind));
    let named = match &program.nodes[pattern.0].kind {
        NodeKind::Variable(variable) => Some((variable.name.clone(), variable.definition)),
        _ => None,
    };
    match named {
        Some((name, definition)) => {
            let useable = match lookup_definition_traits_in_trait(program, &name, trait_id, cache, fuel) {
                Err(fault) => {
                    return Err(fault);
                },
                Ok(useable) => useable,
            };
            let id = match definition {
                None => {
                    return Err(Fault::Malformed);
                },
                Some(id) => id,
            };
            assert(cache.knowledge().definitions.len() == cache.definition_infos@.len());
            if id.0 >= cache.definition_infos.len() {
                return Err(Fault::UnknownDefinition(id.0));
            }
            assert(cache.knowledge().definitions[id.0 as int] == cache.definition_infos@[id.0 as int]@);
            let used = copy_required(&cache.definition_infos[id.0].required_traits);
            let mut ids: Vec<TraitConstraintId> = Vec::new();
            proof {
                let traits = required_of(useable@);
                assert(signatures_of(useable@) =~= Seq::new(traits.len(), |i: int| traits[i].0));
            }
            let ghost k1 = cache.knowledge();
            collect_given_ids(&used, 0, &useable, given, location, &mut ids, cache);
            proof {
                let found = given_ids(
                    k1,
                    required_of(used@),
                    0,
                    signatures_of(useable@) + given_of(given@),
                    location,
                ).0;
                assert(Seq::<TraitConstraintId>::empty() + found =~= found);
                assert(cache.knowledge().definitions.len() == cache.definition_infos@.len());
            }
            set_required_ids(cache, id, &ids);
            Ok(())
        },
        None => match form_of(program, pattern) {
            Form::TypeAnnotation(lhs) => check_impl_propagated_traits(program, lhs, trait_id, given, cache, fuel - 1),
            Form::FunctionCall(_, args) => check_each_propagated_traits(
                program,
                &args,
                0,
                trait_id,
                given,
                cache,
                fuel - 1,
            ),
            _ => {
                report(UnificationError::InvalidImplPattern, location, cache);
                Ok(())
            },
        },
    }
}

/// [`check_impl_propagated_traits`] for each of the patterns from position `at` on.
pub fn check_each_propagated_traits(
    program: &mut Program,
    patterns: &Vec<AstId>,
    at: usize,
    trait_id: TraitInfoId,
    given: &Vec<ConstraintSignature>,
    cache: &mut ModuleCache,
    fuel: u32,
) -> (result: Result<(), Fault>)
    ensures
        final(program).outline() == old(program).outline(),
        leaves(
            result,
            check_all_given(
                old(program).outline(),
                mind(old(program), old(cache)),
                patterns@,
                at as nat,
                trait_id,
                given_of(given@),
                fuel as nat,
            ),
            mind(final(program), final(cache)),
        ),
    decreases fuel, 7nat, patterns@.len() - at,
{
    reveal(check_all_given);
    reveal(check_given);
    if at >= patterns.len() {
        return Ok(());
    }
    match check_impl_propagated_traits(program, patterns[at], trait_id, given, cache, fuel) {
        Err(fault) => {
            return Err(fault);
        },
        Ok(()) => {},
    }
    check_each_propagated_traits(program, patterns, at + 1, trait_id, given, cache, fuel)
}

/// Reports each of the obligations, from position `at` on, as one that a definition of an
/// impl that is no function may not have.
pub fn report_constraints(constraints: &Vec<TraitConstraint>, at: usize, location: Location, cache: &mut ModuleCache)
    ensures
        final(cache).knowledge() == report_each(
            old(cache).knowledge(),
            constraints_of(constraints@),
            at as nat,
            location,
        ),
    decreases constraints@.len() - at,
{
    if at >= constraints.len() {
        return ;
    }
    assert(constraints_of(constraints@)[at as int] == constraints@[at as int]@);
    let args = clone_types(&constraints[at].required.signature.args);
    report(
        UnificationError::TraitOutsideFunction(constraints[at].required.signature.trait_id.0, args),
        location,
        cache,
    );
    report_constraints(constraints, at + 1, location, cache)
}

/// Infers the definitions of an impl from position `at` on: each is given the type that
/// the trait declares for it, is inferred, and is checked to use no trait but those
/// given.
pub fn infer_impl_definitions(
    program: &mut Program,
    definitions: &Vec<AstId>,
    at: usize,
    trait_id: TraitInfoId,
    impl_id: ImplInfoId,
    bindings: &mut TypeBindings,
    cache: &mut ModuleCache,
    fuel: u32,
) -> (result: Result<(), Fault>)
    ensures
        final(program).outline() == old(program).outline(),
        leaves(
            result,
            crate::infer_walk::infer_impl_definitions(
                old(program).outline(),
                mind(old(program), old(cache)),
                definitions@,
                at as nat,
                trait_id,
                impl_id,
                bindings_model(old(bindings)@),
                fuel as nat,
            ),
            mind(final(program), final(cache)),
        ),
    decreases fuel, 7nat, definitions@.len() - at,
{
    reveal(crate::infer_walk::infer_impl_definitions);
    reveal(bind_pattern_in_impl);
    reveal(check_given);
    reveal(infer);
    if at >= definitions.len() {
        return Ok(());
    }
    let definition = definitions[at];
    assert(program.shapes().len() == program.nodes@.len());
    assert(program.locations().len() == program.nodes@.len());
    if definition.0 >= program.nodes.len() {
        return Err(Fault::Malformed);
    }
    let location = program.nodes[definition.0].location;
    assert(place(program.outline(), definition) == location);
    let pattern = match form_of(program, definition) {
        Form::Definition(pattern, _, _, _) => pattern,
        _ => {
            return Err(Fault::Malformed);
        },
    };
    match bind_irrefutable_pattern_in_impl(program, pattern, trait_id, bindings, cache, fuel) {
        Err(fault) => {
            return Err(fault);
        },
        Ok(()) => {},
    }
    // No traits may be left for a definition of an impl that is no function: it is never
    // called, and so nothing could give them to it.
    let constraints = match infer_node(program, definition, cache, fuel) {
        Err(fault) => {
            return Err(fault);
        },
        Ok((_, constraints)) => constraints,
    };
    assert(cache.knowledge().impls.len() == cache.impl_infos@.len());
    if impl_id.0 >= cache.impl_infos.len() {
        return Err(Fault::UnknownDefinition(impl_id.0));
    }
    assert(cache.knowledge().impls[impl_id.0 as int] == cache.impl_infos@[impl_id.0 as int]@);
    let given = copy_signatures(&cache.impl_infos[impl_id.0].given);
    match check_impl_propagated_traits(program, pattern, trait_id, &given, cache, fuel) {
        Err(fault) => {
            return Err(fault);
        },
        Ok(()) => {},
    }
    report_constraints(&constraints, 0, location, cache);
    infer_impl_definitions(program, definitions, at + 1, trait_id, impl_id, bindings, cache, fuel)
}

/// The bindings of the variables, those of `first` and then those of `second`, each to
/// the type in its position.
pub fn trait_bindings(first: &Vec<TypeVariableId>, second: &Vec<TypeVariableId>, types: &Vec<Type>) -> (bindings:
    TypeBindings)
    ensures
        bindings_model(bindings@) == zip_bindings(
            first@ + second@,
            terms_of(types@),
            shorter((first@ + second@).len(), types@.len()),
        ),
{
    let ghost variables = first@ + second@;
    let mut bindings: TypeBindings = TypeBindings::new();
    assert(bindings_model(bindings@) =~= Map::<TypeVariableId, Term>::empty());
    let mut i: usize = 0;
    while i < types.len() && (i < first.len() || i - first.len() < second.len())
        invariant
            i <= types@.len(),
            i <= variables.len(),
            variables == first@ + second@,
            bindings_model(bindings@) == zip_bindings(variables, terms_of(types@), i as nat),
        decreases types@.len() - i,
    {
        let variable = if i < first.len() {
            first[i]
        } else {
            second[i - first.len()]
        };
        assert(variable == variables[i as int]);
        let typ = types[i].clone();
        proof {
            crate::unify::lemma_bindings_model_insert(bindings@, variable, typ);
        }
        bindings.insert(variable, typ);
        i += 1;
    }
    bindings
}

/// Infers an impl of a trait unless that was done already.
pub fn infer_trait_impl(program: &mut Program, id: AstId, cache: &mut ModuleCache, fuel: u32) -> (result: Result<
    (Type, Vec<TraitConstraint>),
    Fault,
>)
    requires
        old(program).has(id),
        old(program).outline().shapes[id.0 as int] is TraitImpl,
    ensures
        final(program).outline() == old(program).outline(),
        finds(
            result,
            crate::infer_walk::infer_trait_impl(
                old(program).outline(),
                mind(old(program), old(cache)),
                id,
                fuel as nat,
            ),
            mind(final(program), final(cache)),
        ),
    decreases fuel, 8nat, 0nat,
{
    reveal(crate::infer_walk::infer_trait_impl);
    reveal(crate::infer_walk::infer_impl_definitions);
    let (trait_info, impl_id, trait_arg_types, definitions) = match form_of(program, id) {
        Form::TraitImpl(trait_info, impl_id, trait_arg_types, definitions) => (
            trait_info,
            impl_id,
            trait_arg_types,
            definitions,
        ),
        _ => {
            return Err(Fault::Malformed);
        },
    };
    let none: Vec<TraitConstraint> = Vec::new();
    assert(constraints_of(none@) =~= Seq::<Constraint>::empty());
    assert(program.notes()[id.0 as int] == note_of(program.nodes@[id.0 as int]));
    if program.nodes[id.0].typ.is_some() {
        return Ok((Type::Primitive(PrimitiveType::UnitType), none));
    }
    let (trait_id, impl_id) = match (trait_info, impl_id) {
        (Some(trait_id), Some(impl_id)) => (trait_id, impl_id),
        _ => {
            return Err(Fault::Malformed);
        },
    };
    assert(cache.knowledge().traits.len() == cache.trait_infos@.len());
    if trait_id.0 >= cache.trait_infos.len() {
        return Err(Fault::UnknownDefinition(trait_id.0));
    }
    assert(cache.knowledge().traits[trait_id.0 as int] == cache.trait_infos@[trait_id.0 as int]@);
    let ghost before = *cache;
    // The type variables are replaced so that the impl is checked against types that
    // are no more general than those it is declared for.
    let types = match replace_all_typevars(&trait_arg_types, cache) {
        Err(fault) => {
            return Err(fault);
        },
        Ok((types, _)) => types,
    };
    proof {
        lemma_knowledge_but_store(&before, cache);
    }
    let mut bindings = trait_bindings(
        &cache.trait_infos[trait_id.0].typeargs,
        &cache.trait_infos[trait_id.0].fundeps,
        &types,
    );
    match infer_impl_definitions(program, &definitions, 0, trait_id, impl_id, &mut bindings, cache, fuel) {
        Err(fault) => {
            return Err(fault);
        },
        Ok(()) => {},
    }
    Ok((Type::Primitive(PrimitiveType::UnitType), none))
}

/// Infers the types of a whole program from its root, at the level of top-level
/// definitions. The obligations that are left at the end are resolved, and none may be
/// left over after that.
pub fn infer_ast(program: &mut Program, root: AstId, cache: &mut ModuleCache) -> (result: Result<(), Fault>)
    ensures
        final(program).outline() == old(program).outline(),
        leaves(
            result,
            infer_program(old(program).outline(), mind(old(program), old(cache)), root),
            mind(final(program), final(cache)),
        ),
{
    set_level(cache, INITIAL_LEVEL);
    let traits = match infer_node(program, root, cache, RECURSION_LIMIT) {
        Err(fault) => {
            return Err(fault);
        },
        Ok((_, traits)) => traits,
    };
    set_level(cache, INITIAL_LEVEL - 1);
    let nothing: Vec<TypeVariableId> = Vec::new();
    assert(nothing@ =~= Seq::<TypeVariableId>::empty());
    assert(constraints_of(traits@).len() == traits@.len());
    let exposed = match resolve_traits(traits, &nothing, cache) {
        Err(fault) => {
            return Err(fault);
        },
        Ok(exposed) => exposed,
    };
    assert(required_of(exposed@).len() == exposed@.len());
    if exposed.len() != 0 {
        return Err(Fault::Malformed);
    }
    Ok(())
}

} // verus!
