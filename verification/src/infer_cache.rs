//! Writing what inference finds into the cache: the level in force, the types of
//! definitions, and the traits they require.
use vstd::prelude::*;
use crate::cache::ModuleCache;
use crate::constraints::to_trait_constraints;
use crate::error::Fault;
use crate::infer_model::{DefinitionModel, Knowledge};
use crate::infer_rules::{uses, with_required, with_type};
use crate::traits::{constraints_of, required_of, RequiredTrait, TraitConstraint};
use crate::types::{DefinitionInfoId, GeneralizedType, ImplScopeId, TraitConstraintId, VariableId};
use crate::infer_model::scheme_of;
use crate::infer_walk::with_ids;

verus! {

/// Do the two caches differ at most in the definition `id`?
pub open spec fn same_but_definition(after: &ModuleCache, before: &ModuleCache, id: DefinitionInfoId) -> bool {
    &&& after.type_bindings == before.type_bindings
    &&& after.current_level == before.current_level
    &&& after.diagnostics == before.diagnostics
    &&& after.type_infos == before.type_infos
    &&& after.trait_infos == before.trait_infos
    &&& after.impl_infos == before.impl_infos
    &&& after.variable_infos == before.variable_infos
    &&& after.current_trait_constraint_id == before.current_trait_constraint_id
    &&& after.int_trait == before.int_trait
    &&& after.definition_infos@.len() == before.definition_infos@.len()
    &&& forall|i: int|
        0 <= i < before.definition_infos@.len() && i != id.0 ==> after.definition_infos@[i]
            == before.definition_infos@[i]
}

/// A cache in which one definition was changed knows what it knew, but for that
/// definition.
pub proof fn lemma_definition_changed(after: &ModuleCache, before: &ModuleCache, id: DefinitionInfoId)
    requires
        id.0 < before.definition_infos@.len(),
        same_but_definition(after, before, id),
    ensures
        after.knowledge() == (Knowledge {
            definitions: before.knowledge().definitions.update(id.0 as int, after.definition_infos@[id.0 as int]@),
            ..before.knowledge()
        }),
{
    let k = after.knowledge();
    let expected = Knowledge {
        definitions: before.knowledge().definitions.update(id.0 as int, after.definition_infos@[id.0 as int]@),
        ..before.knowledge()
    };
    assert(k.diagnostics =~= expected.diagnostics);
    assert(k.definitions =~= expected.definitions);
    assert(k.traits =~= expected.traits);
    assert(k.impls =~= expected.impls);
    assert(k.variables =~= expected.variables);
}

/// Sets the level in force.
pub fn set_level(cache: &mut ModuleCache, level: usize)
    ensures
        final(cache).knowledge() == (Knowledge { level, ..old(cache).knowledge() }),
{
    cache.current_level = level;
    proof {
        let after = cache.knowledge();
        let expected = Knowledge { level, ..old(cache).knowledge() };
        assert(after.diagnostics =~= expected.diagnostics);
        assert(after.definitions =~= expected.definitions);
        assert(after.traits =~= expected.traits);
        assert(after.impls =~= expected.impls);
        assert(after.variables =~= expected.variables);
    }
}

/// Sets the type of the definition.
pub fn set_definition_type(cache: &mut ModuleCache, id: DefinitionInfoId, typ: Option<GeneralizedType>)
    requires
        id.0 < old(cache).definition_infos@.len(),
    ensures
        final(cache).knowledge() == with_type(old(cache).knowledge(), id, scheme_of(typ)),
{
    cache.definition_infos[id.0].typ = typ;
    proof {
        lemma_definition_changed(cache, old(cache), id);
        assert(old(cache).knowledge().definitions[id.0 as int] == old(cache).definition_infos@[id.0 as int]@);
    }
}

/// Adds to the traits that the definition requires.
pub fn add_required(cache: &mut ModuleCache, id: DefinitionInfoId, more: &Vec<RequiredTrait>)
    requires
        id.0 < old(cache).definition_infos@.len(),
    ensures
        final(cache).knowledge() == with_required(old(cache).knowledge(), id, required_of(more@)),
{
    let ghost before = required_of(cache.definition_infos@[id.0 as int].required_traits@);
    let mut i: usize = 0;
    assert(before + required_of(more@).take(0) =~= before);
    while i < more.len()
        invariant
            i <= more.len(),
            id.0 < cache.definition_infos@.len(),
            same_but_definition(cache, old(cache), id),
            before == required_of(old(cache).definition_infos@[id.0 as int].required_traits@),
            cache.definition_infos@[id.0 as int]@ == (DefinitionModel {
                required_traits: before + required_of(more@).take(i as int),
                ..old(cache).definition_infos@[id.0 as int]@
            }),
        decreases more.len() - i,
    {
        let ghost had = required_of(cache.definition_infos@[id.0 as int].required_traits@);
        let copy = more[i].clone();
        cache.definition_infos[id.0].required_traits.push(copy);
        proof {
            assert(required_of(cache.definition_infos@[id.0 as int].required_traits@) =~= had.push(copy@));
            assert(had.push(copy@) =~= before + required_of(more@).take(i + 1));
        }
        i += 1;
    }
    proof {
        assert(required_of(more@).take(i as int) =~= required_of(more@));
        lemma_definition_changed(cache, old(cache), id);
    }
}

/// The obligations that a use of the definition at the occurrence brings.
pub fn use_definition(id: DefinitionInfoId, scope: ImplScopeId, callsite: VariableId, cache: &mut ModuleCache) -> (result:
    Result<Vec<TraitConstraint>, Fault>)
    ensures
        ({
            let (expected, k) = uses(old(cache).knowledge(), id, scope, callsite);
            match expected {
                Err(fault) => result matches Err(f) && f == fault && final(cache).knowledge() == old(cache).knowledge(),
                Ok(constraints) => result matches Ok(found) && constraints_of(found@) == constraints && final(cache).knowledge() == k,
            }
        }),
{
    if id.0 >= cache.definition_infos.len() {
        return Err(Fault::UnknownDefinition(id.0));
    }
    let count = cache.definition_infos[id.0].required_traits.len();
    if count >= (u32::MAX - cache.current_trait_constraint_id) as usize {
        return Err(Fault::OutOfIds);
    }
    let found = to_trait_constraints(id, scope, callsite, cache);
    proof {
        let after = cache.knowledge();
        let expected = uses(old(cache).knowledge(), id, scope, callsite).1;
        assert(after.diagnostics =~= expected.diagnostics);
        assert(after.definitions =~= expected.definitions);
        assert(after.traits =~= expected.traits);
        assert(after.impls =~= expected.impls);
        assert(after.variables =~= expected.variables);
    }
    Ok(found)
}

/// Gives the first of the traits that the definition requires the ids, each in its
/// position.
pub fn set_required_ids(cache: &mut ModuleCache, id: DefinitionInfoId, ids: &Vec<TraitConstraintId>)
    requires
        id.0 < old(cache).definition_infos@.len(),
    ensures
        final(cache).knowledge() == (Knowledge {
            definitions: old(cache).knowledge().definitions.update(
                id.0 as int,
                DefinitionModel {
                    required_traits: with_ids(old(cache).knowledge().definitions[id.0 as int].required_traits, ids@),
                    ..old(cache).knowledge().definitions[id.0 as int]
                },
            ),
            ..old(cache).knowledge()
        }),
{
    let ghost used = required_of(cache.definition_infos@[id.0 as int].required_traits@);
    let count = cache.definition_infos[id.0].required_traits.len();
    let mut i: usize = 0;
    assert(with_ids(used, ids@.take(0)) =~= used);
    while i < count && i < ids.len()
        invariant
            i <= count,
            i <= ids.len(),
            id.0 < cache.definition_infos@.len(),
            count == used.len(),
            count == cache.definition_infos@[id.0 as int].required_traits@.len(),
            same_but_definition(cache, old(cache), id),
            used == required_of(old(cache).definition_infos@[id.0 as int].required_traits@),
            cache.definition_infos@[id.0 as int]@ == (DefinitionModel {
                required_traits: with_ids(used, ids@.take(i as int)),
                ..old(cache).definition_infos@[id.0 as int]@
            }),
        decreases count - i,
    {
        let ghost had = required_of(cache.definition_infos@[id.0 as int].required_traits@);
        cache.definition_infos[id.0].required_traits[i].signature.id = ids[i];
        proof {
            assert(required_of(cache.definition_infos@[id.0 as int].required_traits@) =~= with_ids(
                used,
                ids@.take(i + 1),
            )) by {
                assert forall|j: int| 0 <= j < count implies required_of(
                    cache.definition_infos@[id.0 as int].required_traits@,
                )[j] == with_ids(used, ids@.take(i + 1))[j] by {
                    assert(had[j] == with_ids(used, ids@.take(i as int))[j]);
                }
            }
        }
        i += 1;
    }
    proof {
        assert(with_ids(used, ids@.take(i as int)) =~= with_ids(used, ids@));
        lemma_definition_changed(cache, old(cache), id);
        assert(old(cache).knowledge().definitions[id.0 as int] == old(cache).definition_infos@[id.0 as int]@);
    }
}

} // verus!
