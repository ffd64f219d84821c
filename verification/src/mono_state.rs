//! The state that monomorphisation threads through the program: the bindings of the
//! instantiations in force, the tables of what was lowered, the scopes of impls, and the
//! next free id.
use vstd::prelude::*;
use std::rc::Rc;
use crate::cache::ModuleCache;
use crate::context::{chase_all, Context, Definition, Lowered};
use crate::dispatch::Scope;
use crate::error::Fault;
use crate::hir::share;
use crate::layout::World;
use crate::lowering::Memo;
use crate::types::{DefinitionInfoId, ImplInfoId, Term, TraitConstraintId, Type, TypeVariableId, VariableId};
use crate::unify::{bindings_model, try_unify, unify_terms, Pending, TypeBindings, RECURSION_LIMIT};

verus! {

broadcast use vstd::std_specs::hash::group_hash_axioms;

/// One entry of the table of lowered definitions.
pub type Entry = (DefinitionInfoId, Term, Lowered);

/// The model of the state of a [`Context`], but for the cache.
pub struct MonoState {
    pub stack: Seq<Map<TypeVariableId, Term>>,
    pub memo: Seq<Memo>,
    pub definitions: Seq<Entry>,
    pub direct: Seq<Seq<(VariableId, DefinitionInfoId)>>,
    pub indirect: Seq<Seq<((VariableId, TraitConstraintId), ImplInfoId)>>,
    pub direct_given: Seq<Seq<(VariableId, (TraitConstraintId, ImplInfoId))>>,
    pub indirect_given: Seq<Seq<(TraitConstraintId, (VariableId, TraitConstraintId, ImplInfoId))>>,
    pub next_id: usize,
}

/// The models of the entries of the table of lowered definitions, in order.
pub open spec fn entries_of(entries: Seq<(DefinitionInfoId, Type, Definition)>) -> Seq<Entry> {
    Seq::new(entries.len(), |i: int| (entries[i].0, entries[i].1@, entries[i].2@))
}

/// What the definition was lowered to last for the type, among the first `n` entries.
pub open spec fn defined(entries: Seq<Entry>, n: nat, id: DefinitionInfoId, t: Term) -> Option<Lowered>
    decreases n,
{
    if n == 0 || n > entries.len() {
        None
    } else if entries[n - 1].0 == id && entries[n - 1].1 == t {
        Some(entries[n - 1].2)
    } else {
        defined(entries, (n - 1) as nat, id, t)
    }
}

impl MonoState {
    /// What the lowering of types reads of this state and the cache.
    pub open spec fn world(self, cache: ModuleCache) -> World {
        World { stack: self.stack, store: cache.store(), shapes: crate::cache::shapes_of(cache.type_infos@) }
    }

    /// Is there a scope of impls, and as many of each of the four tables?
    pub open spec fn scoped(self) -> bool {
        &&& self.direct.len() > 0
        &&& self.indirect.len() == self.direct.len()
        &&& self.direct_given.len() == self.direct.len()
        &&& self.indirect_given.len() == self.direct.len()
    }

    /// The innermost scope of impls.
    pub open spec fn scope(self) -> Scope {
        Scope {
            direct: self.direct.last(),
            indirect: self.indirect.last(),
            direct_given: self.direct_given.last(),
            indirect_given: self.indirect_given.last(),
        }
    }

    /// The state with the innermost scope of impls replaced.
    pub open spec fn with_scope(self, scope: Scope) -> MonoState {
        MonoState {
            direct: self.direct.drop_last().push(scope.direct),
            indirect: self.indirect.drop_last().push(scope.indirect),
            direct_given: self.direct_given.drop_last().push(scope.direct_given),
            indirect_given: self.indirect_given.drop_last().push(scope.indirect_given),
            ..self
        }
    }

    /// The state with a scope of impls opened.
    pub open spec fn push_scope(self, scope: Scope) -> MonoState {
        MonoState {
            direct: self.direct.push(scope.direct),
            indirect: self.indirect.push(scope.indirect),
            direct_given: self.direct_given.push(scope.direct_given),
            indirect_given: self.indirect_given.push(scope.indirect_given),
            ..self
        }
    }

    /// The state with the innermost scope of impls closed.
    pub open spec fn pop_scope(self) -> MonoState {
        MonoState {
            direct: without_last(self.direct),
            indirect: without_last(self.indirect),
            direct_given: without_last(self.direct_given),
            indirect_given: without_last(self.indirect_given),
            ..self
        }
    }

    /// The state with one more lowered definition.
    pub open spec fn define(self, id: DefinitionInfoId, t: Term, definition: Lowered) -> MonoState {
        MonoState { definitions: self.definitions.push((id, t, definition)), ..self }
    }
}

/// The sequence without its last item, where it has one.
pub open spec fn without_last<T>(items: Seq<T>) -> Seq<T> {
    if items.len() > 0 {
        items.drop_last()
    } else {
        items
    }
}

/// The models of a stack of tables, in order.
pub open spec fn tables_of<T>(stack: Seq<Vec<T>>) -> Seq<Seq<T>> {
    Seq::new(stack.len(), |i: int| stack[i]@)
}

impl Context {
    /// The model of the state of this context, but for the cache.
    pub open spec fn state(&self) -> MonoState {
        MonoState {
            stack: self.stack(),
            memo: self.memo(),
            definitions: entries_of(self.definitions@),
            direct: tables_of(self.direct_impl_mappings@),
            indirect: tables_of(self.indirect_impl_mappings@),
            direct_given: tables_of(self.direct_given_impl_mappings@),
            indirect_given: tables_of(self.indirect_given_impl_mappings@),
            next_id: self.next_id,
        }
    }

    /// How many bindings of instantiations are in force, and how many scopes of impls are
    /// open in each of the four tables.
    pub open spec fn depth(&self) -> (nat, nat, nat, nat, nat) {
        (
            self.monomorphisation_bindings@.len(),
            self.direct_impl_mappings@.len(),
            self.indirect_impl_mappings@.len(),
            self.direct_given_impl_mappings@.len(),
            self.indirect_given_impl_mappings@.len(),
        )
    }

    /// The state says of scopes and of types what the context says.
    pub proof fn lemma_state(&self)
        ensures
            self.state().scoped() == self.scoped(),
            self.scoped() ==> self.state().scope() == self.scope(),
            self.state().world(self.cache) == self.world(),
    {
    }

    /// What the definition was lowered to for the type, if it was.
    pub fn lookup_definition(&self, id: DefinitionInfoId, typ: &Type) -> (result: Result<Option<Definition>, Fault>)
        ensures
            match chase_all(typ@, self.stack(), self.cache.store(), RECURSION_LIMIT as nat) {
                Err(fault) => result matches Err(f) && f == fault,
                Ok(t) => result matches Ok(found) && (match found {
                    Some(definition) => defined(self.state().definitions, self.state().definitions.len(), id, t)
                        == Some(definition@),
                    None => defined(self.state().definitions, self.state().definitions.len(), id, t).is_none(),
                }),
            },
    {
        let followed = match self.follow_all_bindings(typ) {
            Err(fault) => {
                return Err(fault);
            },
            Ok(followed) => followed,
        };
        let ghost entries = entries_of(self.definitions@);
        let mut i: usize = self.definitions.len();
        while i > 0
            invariant
                i <= self.definitions.len(),
                entries == entries_of(self.definitions@),
                chase_all(typ@, self.stack(), self.cache.store(), RECURSION_LIMIT as nat) == Ok::<Term, Fault>(
                    followed@,
                ),
                defined(entries, entries.len(), id, followed@) == defined(entries, i as nat, id, followed@),
            decreases i,
        {
            i -= 1;
            assert(entries[i as int] == (self.definitions@[i as int].0, self.definitions@[i as int].1@, self.definitions@[i as int].2@));
            if self.definitions[i].0 == id && self.definitions[i].1.eq(&followed) {
                return Ok(Some(self.definitions[i].2.clone()));
            }
        }
        Ok(None)
    }

    /// Do the two contexts differ at most in the table of lowered definitions?
    pub open spec fn same_but_definitions(&self, other: &Context) -> bool {
        &&& self.monomorphisation_bindings == other.monomorphisation_bindings
        &&& self.cache == other.cache
        &&& self.types == other.types
        &&& self.direct_impl_mappings == other.direct_impl_mappings
        &&& self.indirect_impl_mappings == other.indirect_impl_mappings
        &&& self.direct_given_impl_mappings == other.direct_given_impl_mappings
        &&& self.indirect_given_impl_mappings == other.indirect_given_impl_mappings
        &&& self.next_id == other.next_id
    }

    /// Enters what the definition was lowered to for the type.
    pub fn insert_definition(&mut self, id: DefinitionInfoId, typ: Type, definition: Definition)
        ensures
            final(self).same_but_definitions(old(self)),
            final(self).state() == old(self).state().define(id, typ@, definition@),
    {
        self.definitions.push((id, typ, definition));
        assert(entries_of(self.definitions@) =~= entries_of(old(self).definitions@).push(
            (id, typ@, definition@),
        ));
    }
}

/// The bindings in force once those of a use of a definition are added: the instantiation
/// at the use, if it binds anything, and for a definition inside an impl the bindings
/// under which the type at the use is the type of the definition.
#[verifier::opaque]
pub open spec fn bindings_pushed(
    stack: Seq<Map<TypeVariableId, Term>>,
    mapping: Map<TypeVariableId, Term>,
    typ: Term,
    definition: DefinitionInfoId,
    cache: ModuleCache,
) -> Result<Seq<Map<TypeVariableId, Term>>, Fault> {
    let first = if mapping.dom().is_empty() {
        stack
    } else {
        stack.push(mapping)
    };
    if definition.0 >= cache.definition_infos@.len() {
        Err(Fault::UnknownDefinition(definition.0))
    } else {
        let info = cache.definition_infos@[definition.0 as int];
        if info.trait_impl is Some {
            match info.typ {
                None => Err(Fault::Malformed),
                Some(scheme) => {
                    let nothing = Pending { bindings: Map::empty(), level_bindings: Seq::empty() };
                    let (outcome, pending) = unify_terms(
                        typ,
                        scheme.body(),
                        nothing,
                        cache.store(),
                        RECURSION_LIMIT as nat,
                    );
                    if outcome is Ok {
                        Ok(first.push(pending.bindings))
                    } else {
                        Err(Fault::Malformed)
                    }
                },
            }
        } else {
            Ok(first)
        }
    }
}

/// How many bindings a use of the definition brings into force.
pub open spec fn pushed_count(mapping: Map<TypeVariableId, Term>, definition: DefinitionInfoId, cache: ModuleCache) -> nat {
    (if mapping.dom().is_empty() {
        0nat
    } else {
        1nat
    }) + (if definition.0 < cache.definition_infos@.len() && cache.definition_infos@[definition.0 as int].trait_impl
        is Some {
        1nat
    } else {
        0nat
    })
}

/// The bindings in force once those of a use of a definition are dropped again.
#[verifier::opaque]
pub open spec fn bindings_popped(
    stack: Seq<Map<TypeVariableId, Term>>,
    mapping: Map<TypeVariableId, Term>,
    definition: DefinitionInfoId,
    cache: ModuleCache,
) -> Seq<Map<TypeVariableId, Term>> {
    let first = if mapping.dom().is_empty() || stack.len() == 0 {
        stack
    } else {
        stack.drop_last()
    };
    if definition.0 < cache.definition_infos@.len() && cache.definition_infos@[definition.0 as int].trait_impl is Some
        && first.len() > 0 {
        first.drop_last()
    } else {
        first
    }
}

impl Context {
    /// Do the two contexts differ at most in the bindings of the instantiations in force?
    pub open spec fn same_but_bindings(&self, other: &Context) -> bool {
        &&& self.cache == other.cache
        &&& self.definitions == other.definitions
        &&& self.types == other.types
        &&& self.direct_impl_mappings == other.direct_impl_mappings
        &&& self.indirect_impl_mappings == other.indirect_impl_mappings
        &&& self.direct_given_impl_mappings == other.direct_given_impl_mappings
        &&& self.indirect_given_impl_mappings == other.indirect_given_impl_mappings
        &&& self.next_id == other.next_id
    }

    /// Brings into force the bindings of a use, at the type `typ`, of the definition.
    pub fn push_monomorphisation_bindings(
        &mut self,
        instantiation_mapping: &Rc<TypeBindings>,
        typ: &Type,
        definition: DefinitionInfoId,
    ) -> (result: Result<(), Fault>)
        ensures
            final(self).same_but_bindings(old(self)),
            match bindings_pushed(
                old(self).stack(),
                bindings_model((**instantiation_mapping)@),
                typ@,
                definition,
                old(self).cache,
            ) {
                Ok(stack) => result is Ok && final(self).stack() == stack && definition.0 < old(self).cache.definition_infos@.len(),
                Err(fault) => result == Err::<(), Fault>(fault),
            },
            final(self).monomorphisation_bindings@.len() == old(self).monomorphisation_bindings@.len() + (
            if result is Ok {
                pushed_count(bindings_model((**instantiation_mapping)@), definition, old(self).cache)
            } else {
                0nat
            }),
    {
        reveal(bindings_pushed);
        assert(bindings_model((**instantiation_mapping)@).dom() =~= (**instantiation_mapping)@.dom());
        if definition.0 >= self.cache.definition_infos.len() {
            return Err(Fault::UnknownDefinition(definition.0));
        }
        // Nothing is pushed before it is known that nothing fails.
        let info = &self.cache.definition_infos[definition.0];
        let unified = if info.trait_impl.is_some() {
            let definition_type = match &info.typ {
                None => {
                    return Err(Fault::Malformed);
                },
                Some(scheme) => scheme.remove_forall(),
            };
            match try_unify(typ, definition_type, info.location, &self.cache) {
                Err(_) => {
                    return Err(Fault::Malformed);
                },
                Ok(bindings) => Some(bindings),
            }
        } else {
            None
        };
        if !instantiation_mapping.is_empty() {
            self.monomorphisation_bindings.push(share(instantiation_mapping));
            assert(self.stack() =~= old(self).stack().push(bindings_model((**instantiation_mapping)@)));
        }
        match unified {
            Some(bindings) => {
                let ghost before = self.stack();
                let found = Rc::new(bindings.bindings);
                self.monomorphisation_bindings.push(found);
                assert(self.stack() =~= before.push(bindings@.bindings));
            },
            None => {},
        }
        Ok(())
    }

    /// Drops the bindings of a use of the definition again.
    pub fn pop_monomorphisation_bindings(&mut self, instantiation_mapping: &Rc<TypeBindings>, definition: DefinitionInfoId)
        ensures
            final(self).same_but_bindings(old(self)),
            old(self).monomorphisation_bindings@.len() >= pushed_count(
                bindings_model((**instantiation_mapping)@),
                definition,
                old(self).cache,
            ) ==> final(self).monomorphisation_bindings@.len() == old(self).monomorphisation_bindings@.len()
                - pushed_count(bindings_model((**instantiation_mapping)@), definition, old(self).cache),
            final(self).stack() == bindings_popped(
                old(self).stack(),
                bindings_model((**instantiation_mapping)@),
                definition,
                old(self).cache,
            ),
    {
        reveal(bindings_popped);
        assert(bindings_model((**instantiation_mapping)@).dom() =~= (**instantiation_mapping)@.dom());
        if !instantiation_mapping.is_empty() {
            let ghost before = self.stack();
            self.monomorphisation_bindings.pop();
            proof {
                if before.len() > 0 {
                    assert(self.stack() =~= before.drop_last());
                }
            }
        }
        if definition.0 < self.cache.definition_infos.len() && self.cache.definition_infos[definition.0].trait_impl.is_some() {
            let ghost before = self.stack();
            self.monomorphisation_bindings.pop();
            proof {
                if before.len() > 0 {
                    assert(self.stack() =~= before.drop_last());
                }
            }
        }
    }
}

/// A context whose innermost scope of impls was changed has the state with that scope
/// replaced.
pub proof fn lemma_scope_replaced(before: &Context, after: &Context)
    requires
        before.scoped(),
        after.same_but_scope(before),
    ensures
        after.state() == before.state().with_scope(after.scope()),
{
    let s = after.state();
    let t = before.state().with_scope(after.scope());
    assert(after.direct_impl_mappings@ =~= after.direct_impl_mappings@.drop_last().push(
        after.direct_impl_mappings@.last(),
    ));
    assert(after.indirect_impl_mappings@ =~= after.indirect_impl_mappings@.drop_last().push(
        after.indirect_impl_mappings@.last(),
    ));
    assert(after.direct_given_impl_mappings@ =~= after.direct_given_impl_mappings@.drop_last().push(
        after.direct_given_impl_mappings@.last(),
    ));
    assert(after.indirect_given_impl_mappings@ =~= after.indirect_given_impl_mappings@.drop_last().push(
        after.indirect_given_impl_mappings@.last(),
    ));
    assert(s.direct =~= t.direct);
    assert(s.indirect =~= t.indirect);
    assert(s.direct_given =~= t.direct_given);
    assert(s.indirect_given =~= t.indirect_given);
}

/// A context in which a scope of impls was opened has the state with that scope pushed.
pub proof fn lemma_scope_pushed(before: &Context, after: &Context)
    requires
        after.same_but_scopes(before),
        after.scoped(),
        after.direct_impl_mappings@.drop_last() == before.direct_impl_mappings@,
        after.indirect_impl_mappings@.drop_last() == before.indirect_impl_mappings@,
        after.direct_given_impl_mappings@.drop_last() == before.direct_given_impl_mappings@,
        after.indirect_given_impl_mappings@.drop_last() == before.indirect_given_impl_mappings@,
    ensures
        after.state() == before.state().push_scope(after.scope()),
{
    let s = after.state();
    let t = before.state().push_scope(after.scope());
    assert(after.direct_impl_mappings@ =~= before.direct_impl_mappings@.push(after.direct_impl_mappings@.last()));
    assert(after.indirect_impl_mappings@ =~= before.indirect_impl_mappings@.push(
        after.indirect_impl_mappings@.last(),
    ));
    assert(after.direct_given_impl_mappings@ =~= before.direct_given_impl_mappings@.push(
        after.direct_given_impl_mappings@.last(),
    ));
    assert(after.indirect_given_impl_mappings@ =~= before.indirect_given_impl_mappings@.push(
        after.indirect_given_impl_mappings@.last(),
    ));
    assert(s.direct =~= t.direct);
    assert(s.indirect =~= t.indirect);
    assert(s.direct_given =~= t.direct_given);
    assert(s.indirect_given =~= t.indirect_given);
}

/// A context in which the innermost scope of impls was closed has the state with that
/// scope popped.
pub proof fn lemma_scope_popped(before: &Context, after: &Context)
    requires
        after.same_but_scopes(before),
        after.direct_impl_mappings@ == without_last(before.direct_impl_mappings@),
        after.indirect_impl_mappings@ == without_last(before.indirect_impl_mappings@),
        after.direct_given_impl_mappings@ == without_last(before.direct_given_impl_mappings@),
        after.indirect_given_impl_mappings@ == without_last(before.indirect_given_impl_mappings@),
    ensures
        after.state() == before.state().pop_scope(),
{
    let s = after.state();
    let t = before.state().pop_scope();
    assert(s.direct =~= t.direct);
    assert(s.indirect =~= t.indirect);
    assert(s.direct_given =~= t.direct_given);
    assert(s.indirect_given =~= t.indirect_given);
}

} // verus!
