//! What can be inferred: anything that stands for a node of the program and has a rule
//! that finds its type.
use vstd::prelude::*;
use crate::ast::Program;
use crate::cache::ModuleCache;
use crate::error::Fault;
use crate::infer_nodes::finds;
use crate::infer_patterns::mind;
use crate::infer_rules::{noted, Mind, Outline};
use crate::infer_walk::{infer_kind, Inference};
use crate::traits::TraitConstraint;
use crate::types::{AstId, Type};

verus! {

/// Something whose type can be inferred.
pub trait Inferable {
    /// The node in which the type found is noted.
    spec fn subject(&self) -> AstId;

    /// What the rule finds, and the mind after.
    spec fn rule(&self, o: Outline, m: Mind, fuel: nat) -> Inference;

    /// The node in which the type found is noted.
    fn node_id(&self) -> (id: AstId)
        ensures
            id == self.subject(),
    ;

    /// Infers the type by the rule, without noting it.
    fn infer_impl(&self, program: &mut Program, cache: &mut ModuleCache, fuel: u32) -> (result: Result<
        (Type, Vec<TraitConstraint>),
        Fault,
    >)
        ensures
            final(program).outline() == old(program).outline(),
            finds(
                result,
                self.rule(old(program).outline(), mind(old(program), old(cache)), fuel as nat),
                mind(final(program), final(cache)),
            ),
    ;
}

impl Inferable for AstId {
    open spec fn subject(&self) -> AstId {
        *self
    }

    open spec fn rule(&self, o: Outline, m: Mind, fuel: nat) -> Inference {
        if self.0 >= o.shapes.len() {
            (Err(Fault::Malformed), m)
        } else {
            infer_kind(o, m, *self, fuel)
        }
    }

    fn node_id(&self) -> (id: AstId) {
        *self
    }

    fn infer_impl(&self, program: &mut Program, cache: &mut ModuleCache, fuel: u32) -> (result: Result<
        (Type, Vec<TraitConstraint>),
        Fault,
    >) {
        assert(program.shapes().len() == program.nodes@.len());
        if self.0 >= program.nodes.len() {
            return Err(Fault::Malformed);
        }
        crate::infer::infer_impl(program, *self, cache, fuel)
    }
}

/// What [`infer`] finds: what the rule finds, with the type noted in the subject.
pub open spec fn noted_inference(found: Inference, subject: AstId, m: Mind) -> Inference {
    match found.0 {
        Err(fault) => (Err(fault), m),
        Ok((typ, constraints)) => if subject.0 >= found.1.notes.len() {
            (Err(Fault::Malformed), m)
        } else {
            (Ok((typ, constraints)), Mind { notes: noted(found.1.notes, subject, typ), ..found.1 })
        },
    }
}

/// Infers the type by the rule, notes it in the node, and returns it with the obligations
/// that arose.
pub fn infer<T: Inferable>(ast: &T, program: &mut Program, cache: &mut ModuleCache, fuel: u32) -> (result: Result<
    (Type, Vec<TraitConstraint>),
    Fault,
>)
    ensures
        final(program).outline() == old(program).outline(),
        finds(
            result,
            noted_inference(
                ast.rule(old(program).outline(), mind(old(program), old(cache)), fuel as nat),
                ast.subject(),
                mind(old(program), old(cache)),
            ),
            mind(final(program), final(cache)),
        ),
{
    let (typ, traits) = match ast.infer_impl(program, cache, fuel) {
        Err(fault) => {
            return Err(fault);
        },
        Ok(found) => found,
    };
    let id = ast.node_id();
    assert(program.notes().len() == program.nodes@.len());
    if id.0 >= program.nodes.len() {
        return Err(Fault::Malformed);
    }
    program.set_type(id, typ.clone());
    Ok((typ, traits))
}

} // verus!
