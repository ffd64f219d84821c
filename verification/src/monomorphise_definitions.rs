//! The lowering of definitions on demand: one definition of the source becomes one
//! definition of the intermediate representation for each type it is used at.
use vstd::prelude::*;
use std::rc::Rc;
use crate::ast::{NodeKind, Program};
use crate::cache::DefinitionKind;
use crate::context::{Context, Definition};
use crate::emit::{definition_of, global_of, plain};
use crate::error::Fault;
use crate::hir::{trees_of, Ast, DefinitionId, Variable as Reference};
use crate::mono_state::{lemma_scope_popped, lemma_scope_pushed, MonoState};
use crate::monomorphise::{defines, single_or_sequence};
use crate::monomorphise_walk::{
    desugar, mono, mono_by_kind, mono_definition_id, mono_nonlocal_definition,
};
use crate::types::{AstId, DefinitionInfoId, Type, VariableId};
use crate::unify::{bindings_model, TypeBindings};

verus! {

impl Context {
    /// Lowers a definition that is used from elsewhere, as the definition `definition_id`.
    #[verifier::spinoff_prover]
    #[verifier::rlimit(40)]
    pub fn monomorphise_nonlocal_definition(&mut self, program: &Program, node: AstId, definition_id: DefinitionId, fuel: u32) -> (result:
        Result<Definition, Fault>)
        ensures
            final(self).cache == old(self).cache,
            final(self).depth() == old(self).depth(),
            defines(
                result,
                mono_nonlocal_definition(*program, old(self).cache, node, definition_id, old(self).state(), fuel as nat),
                final(self).state(),
            ),
        decreases fuel, 3nat, 0nat,
    {
        reveal(mono_nonlocal_definition);
        reveal(mono);
        reveal(desugar);
        let found = match program.get(node) {
            None => {
                return Err(Fault::Malformed);
            },
            Some(found) => found,
        };
        match &found.kind {
            NodeKind::Definition(pattern, expr, mutable, _) => {
                let value = match self.monomorphise(program, *expr, fuel) {
                    Err(fault) => {
                        return Err(fault);
                    },
                    Ok(value) => value,
                };
                let new_definition = definition_of(definition_id, value);
                let mut nested_definitions: Vec<Ast> = Vec::new();
                nested_definitions.push(new_definition);
                assert(trees_of(nested_definitions@) =~= seq![new_definition@]);
                let typ = match self.followed_type_of(program, *pattern) {
                    Err(fault) => {
                        return Err(fault);
                    },
                    Ok(typ) => typ,
                };
                match self.desugar_pattern(program, *pattern, definition_id, typ, *mutable, &mut nested_definitions, fuel) {
                    Err(fault) => {
                        return Err(fault);
                    },
                    Ok(()) => {},
                }
                let definition = single_or_sequence(nested_definitions);
                Ok(Definition::Normal(global_of(definition_id, definition)))
            },
            _ => Err(Fault::Malformed),
        }
    }

    /// Lowers the definition `id` for the type `typ`, at which the occurrence
    /// `variable_id` uses it, unless it was lowered for that type before.
    #[verifier::spinoff_prover]
    #[verifier::rlimit(40)]
    pub fn monomorphise_definition_id(
        &mut self,
        program: &Program,
        id: DefinitionInfoId,
        variable_id: VariableId,
        typ: &Type,
        instantiation_mapping: &Rc<TypeBindings>,
        fuel: u32,
    ) -> (result: Result<Definition, Fault>)
        ensures
            final(self).cache == old(self).cache,
            final(self).depth() == old(self).depth(),
            defines(
                result,
                mono_definition_id(
                    *program,
                    old(self).cache,
                    id,
                    variable_id,
                    typ@,
                    bindings_model((**instantiation_mapping)@),
                    old(self).state(),
                    fuel as nat,
                ),
                final(self).state(),
            ),
        decreases fuel, 5nat, 0nat,
    {
        reveal(mono_definition_id);
        reveal(mono_by_kind);
        proof {
            self.lemma_state();
        }
        match self.lookup_definition(id, typ) {
            Err(fault) => {
                return Err(fault);
            },
            Ok(Some(value)) => {
                return Ok(value);
            },
            Ok(None) => {},
        }
        let typ = match self.follow_all_bindings(typ) {
            Err(fault) => {
                return Err(fault);
            },
            Ok(typ) => typ,
        };
        let ghost start = self.state();
        match self.push_monomorphisation_bindings(instantiation_mapping, &typ, id) {
            Err(fault) => {
                return Err(fault);
            },
            Ok(()) => {},
        }
        let ghost st1 = self.state();
        proof {
            self.lemma_state();
            assert(st1 == MonoState { stack: self.stack(), ..start });
        }
        if !self.is_scoped() {
            self.pop_monomorphisation_bindings(instantiation_mapping, id);
            return Err(Fault::Malformed);
        }
        if !self.has_required_traits(id, variable_id) {
            self.pop_monomorphisation_bindings(instantiation_mapping, id);
            return Err(Fault::Malformed);
        }
        let ghost pushed = *self;
        match self.add_required_traits(id, variable_id) {
            Err(fault) => {
                self.pop_monomorphisation_bindings(instantiation_mapping, id);
                return Err(fault);
            },
            Ok(()) => {},
        }
        proof {
            lemma_scope_pushed(&pushed, self);
            self.lemma_state();
        }
        let ghost st2 = self.state();
        // Lower the definition with the bindings in force
        let value = match self.monomorphise_by_kind(program, id, typ, fuel) {
            Err(fault) => {
                // The scopes are closed on failure as well
                self.pop_required_traits();
                self.pop_monomorphisation_bindings(instantiation_mapping, id);
                return Err(fault);
            },
            Ok(value) => value,
        };
        let ghost lowered = *self;
        self.pop_required_traits();
        proof {
            lemma_scope_popped(&lowered, self);
        }
        self.pop_monomorphisation_bindings(instantiation_mapping, id);
        Ok(value)
    }

    /// Lowers the definition `id` for the type `typ` as its kind has it.
    #[verifier::spinoff_prover]
    #[verifier::rlimit(40)]
    pub fn monomorphise_by_kind(&mut self, program: &Program, id: DefinitionInfoId, typ: Type, fuel: u32) -> (result:
        Result<Definition, Fault>)
        ensures
            final(self).cache == old(self).cache,
            final(self).depth() == old(self).depth(),
            defines(
                result,
                mono_by_kind(*program, old(self).cache, id, typ@, old(self).state(), fuel as nat),
                final(self).state(),
            ),
        decreases fuel, 4nat, 0nat,
    {
        reveal(mono_by_kind);
        reveal(mono_nonlocal_definition);
        if id.0 >= self.cache.definition_infos.len() {
            return Err(Fault::UnknownDefinition(id.0));
        }
        match self.cache.definition_infos[id.0].definition {
            Some(DefinitionKind::Definition(node)) => {
                // Any recursive use of this definition will refer to this binding
                let definition_id = match self.take_next_id() {
                    Err(fault) => {
                        return Err(fault);
                    },
                    Ok(definition_id) => definition_id,
                };
                let placeholder = Reference { definition: None, definition_id };
                assert(placeholder@ == plain(definition_id));
                self.insert_definition(id, typ.clone(), Definition::Normal(placeholder));
                let def = match self.monomorphise_nonlocal_definition(program, node, definition_id, fuel) {
                    Err(fault) => {
                        return Err(fault);
                    },
                    Ok(def) => def,
                };
                self.insert_definition(id, typ, def.clone());
                Ok(def)
            },
            Some(DefinitionKind::Extern(_)) => self.make_extern(id, &typ),
            Some(DefinitionKind::TypeConstructor(tag)) => self.monomorphise_constructor(&tag, id, typ),
            _ => Err(Fault::Malformed),
        }
    }
}

} // verus!
