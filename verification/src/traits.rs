//! Obligations to have an impl of a trait, and where they arose.
use vstd::prelude::*;
use crate::types::{
    clone_types, terms_of, ImplInfoId, ImplScopeId, Term, TraitConstraintId, TraitInfoId, Type,
    VariableId,
};

verus! {

/// A trait applied to types, under the id of the obligation.
#[derive(Debug)]
pub struct ConstraintSignature {
    pub trait_id: TraitInfoId,
    pub args: Vec<Type>,
    pub id: TraitConstraintId,
}

/// The model of a [`ConstraintSignature`].
pub struct Signature {
    pub trait_id: TraitInfoId,
    pub args: Seq<Term>,
    pub id: TraitConstraintId,
}

impl View for ConstraintSignature {
    type V = Signature;

    open spec fn view(&self) -> Signature {
        Signature { trait_id: self.trait_id, args: terms_of(self.args@), id: self.id }
    }
}

impl Clone for ConstraintSignature {
    fn clone(&self) -> (copy: ConstraintSignature)
        ensures
            copy@ == self@,
    {
        ConstraintSignature { trait_id: self.trait_id, args: clone_types(&self.args), id: self.id }
    }
}

/// Where an obligation arose.
#[derive(Clone, Copy, Debug, PartialEq, Eq, Structural)]
pub enum Callsite {
    /// At this occurrence of a variable.
    Direct(VariableId),
    /// At this occurrence, inside a definition that passes the obligation on to its users
    /// under the given id.
    Indirect(VariableId, TraitConstraintId),
    /// Supplied by a `given` clause for this occurrence.
    GivenDirect(VariableId, TraitConstraintId),
    /// Supplied by a `given` clause for an obligation that was itself passed on: the
    /// occurrence, the obligation it serves, and the obligation it came from.
    GivenIndirect(VariableId, TraitConstraintId, TraitConstraintId),
}

impl Callsite {
    /// The occurrence of a variable at which the obligation arose.
    pub fn id(&self) -> (id: VariableId)
        ensures
            id == self.variable(),
    {
        match self {
            Callsite::Direct(id) => *id,
            Callsite::Indirect(id, _) => *id,
            Callsite::GivenDirect(id, _) => *id,
            Callsite::GivenIndirect(id, _, _) => *id,
        }
    }

    pub open spec fn variable(&self) -> VariableId {
        match self {
            Callsite::Direct(id) => *id,
            Callsite::Indirect(id, _) => *id,
            Callsite::GivenDirect(id, _) => *id,
            Callsite::GivenIndirect(id, _, _) => *id,
        }
    }
}

/// A trait that a definition needs an impl of.
#[derive(Debug)]
pub struct RequiredTrait {
    pub signature: ConstraintSignature,
    pub callsite: Callsite,
}

impl View for RequiredTrait {
    type V = (Signature, Callsite);

    open spec fn view(&self) -> (Signature, Callsite) {
        (self.signature@, self.callsite)
    }
}

impl Clone for RequiredTrait {
    fn clone(&self) -> (copy: RequiredTrait)
        ensures
            copy@ == self@,
    {
        RequiredTrait { signature: self.signature.clone(), callsite: self.callsite }
    }
}

/// An obligation that inference has yet to resolve, with the impls in scope where it arose.
#[derive(Debug)]
pub struct TraitConstraint {
    pub required: RequiredTrait,
    pub scope: ImplScopeId,
}

/// The model of a [`TraitConstraint`].
pub struct Constraint {
    pub signature: Signature,
    pub callsite: Callsite,
    pub scope: ImplScopeId,
}

impl View for TraitConstraint {
    type V = Constraint;

    open spec fn view(&self) -> Constraint {
        Constraint {
            signature: self.required.signature@,
            callsite: self.required.callsite,
            scope: self.scope,
        }
    }
}

impl Clone for TraitConstraint {
    fn clone(&self) -> (copy: TraitConstraint)
        ensures
            copy@ == self@,
    {
        TraitConstraint { required: self.required.clone(), scope: self.scope }
    }
}

pub type TraitConstraints = Vec<TraitConstraint>;

/// The models of a list of constraints, in order.
pub open spec fn constraints_of(constraints: Seq<TraitConstraint>) -> Seq<Constraint> {
    Seq::new(constraints.len(), |i: int| constraints[i]@)
}

/// The models of a list of required traits, in order.
pub open spec fn required_of(traits: Seq<RequiredTrait>) -> Seq<(Signature, Callsite)> {
    Seq::new(traits.len(), |i: int| traits[i]@)
}

impl RequiredTrait {
    /// The obligation that a use of the definition brings: this trait, under the id `id`,
    /// arising at `callsite` on behalf of the obligation that the definition itself has.
    pub fn as_constraint(&self, scope: ImplScopeId, callsite: VariableId, id: TraitConstraintId) -> (constraint:
        TraitConstraint)
        ensures
            constraint@ == passed_on(self@, scope, callsite, id),
    {
        let signature = ConstraintSignature {
            trait_id: self.signature.trait_id,
            args: clone_types(&self.signature.args),
            id,
        };
        TraitConstraint {
            required: RequiredTrait { signature, callsite: Callsite::Indirect(callsite, self.signature.id) },
            scope,
        }
    }
}

/// The model of [`RequiredTrait::as_constraint`].
pub open spec fn passed_on(
    required: (Signature, Callsite),
    scope: ImplScopeId,
    callsite: VariableId,
    id: TraitConstraintId,
) -> Constraint {
    Constraint {
        signature: Signature { trait_id: required.0.trait_id, args: required.0.args, id },
        callsite: Callsite::Indirect(callsite, required.0.id),
        scope,
    }
}

/// An impl that was chosen for an obligation.
#[derive(Debug)]
pub struct RequiredImpl {
    pub args: Vec<Type>,
    pub callsite: Callsite,
    pub binding: ImplInfoId,
}

impl Clone for RequiredImpl {
    fn clone(&self) -> (copy: RequiredImpl)
        ensures
            copy.callsite == self.callsite,
            copy.binding == self.binding,
            terms_of(copy.args@) == terms_of(self.args@),
    {
        RequiredImpl { args: clone_types(&self.args), callsite: self.callsite, binding: self.binding }
    }
}

} // verus!
