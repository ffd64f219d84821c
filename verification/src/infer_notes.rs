//! Writing what inference notes into the nodes of the program: the shape of the program
//! stays as it is.
use vstd::prelude::*;
use std::rc::Rc;
use crate::ast::{LiteralKind, NodeKind, Program};
use crate::infer_model::{shape_of, Note};
use crate::types::{AstId, IntegerKind, Type};
use crate::unify::{bindings_model, TypeBindings};

verus! {

/// Do the two programs have the same shape and the same places?
pub open spec fn same_shape(a: Program, b: Program) -> bool {
    a.shapes() == b.shapes() && a.locations() == b.locations()
}

impl Program {
    /// Notes the type of the node.
    pub fn set_type(&mut self, id: AstId, typ: Type)
        requires
            old(self).has(id),
        ensures
            same_shape(*final(self), *old(self)),
            final(self).notes() == old(self).notes().update(
                id.0 as int,
                Note { typ: Some(typ@), ..old(self).notes()[id.0 as int] },
            ),
    {
        self.nodes[id.0].typ = Some(typ);
        proof {
            assert(self.shapes() =~= old(self).shapes());
            assert(self.locations() =~= old(self).locations());
            assert(self.notes() =~= old(self).notes().update(
                id.0 as int,
                Note { typ: Some(typ@), ..old(self).notes()[id.0 as int] },
            ));
        }
    }

    /// Notes the kind of the integer literal that the node is.
    pub fn set_integer_kind(&mut self, id: AstId, kind: IntegerKind)
        requires
            old(self).has(id),
            old(self).node(id).kind matches NodeKind::Literal(LiteralKind::Integer(_, _)),
        ensures
            same_shape(*final(self), *old(self)),
            final(self).notes() == old(self).notes().update(
                id.0 as int,
                Note { kind: Some(kind), ..old(self).notes()[id.0 as int] },
            ),
    {
        match &mut self.nodes[id.0].kind {
            NodeKind::Literal(LiteralKind::Integer(_, slot)) => {
                *slot = kind;
            },
            _ => {},
        }
        proof {
            assert(self.shapes() =~= old(self).shapes());
            assert(self.locations() =~= old(self).locations());
            assert(self.notes() =~= old(self).notes().update(
                id.0 as int,
                Note { kind: Some(kind), ..old(self).notes()[id.0 as int] },
            ));
        }
    }

    /// Notes the instantiation of the definition that the variable node uses.
    pub fn set_mapping(&mut self, id: AstId, mapping: TypeBindings)
        requires
            old(self).has(id),
            old(self).node(id).kind is Variable,
        ensures
            same_shape(*final(self), *old(self)),
            final(self).notes() == old(self).notes().update(
                id.0 as int,
                Note { mapping: bindings_model(mapping@), ..old(self).notes()[id.0 as int] },
            ),
    {
        match &mut self.nodes[id.0].kind {
            NodeKind::Variable(variable) => {
                variable.instantiation_mapping = Rc::new(mapping);
            },
            _ => {},
        }
        proof {
            assert(self.shapes() =~= old(self).shapes());
            assert(self.locations() =~= old(self).locations());
            assert(self.notes() =~= old(self).notes().update(
                id.0 as int,
                Note { mapping: bindings_model(mapping@), ..old(self).notes()[id.0 as int] },
            ));
        }
    }

    /// Notes the instantiation of the captured definition `at` of the lambda node.
    pub fn set_capture(&mut self, id: AstId, at: usize, mapping: TypeBindings)
        requires
            old(self).has(id),
            old(self).node(id).kind matches NodeKind::Lambda(_, _, environment) && at < environment@.len(),
        ensures
            same_shape(*final(self), *old(self)),
            final(self).notes() == old(self).notes().update(
                id.0 as int,
                Note {
                    captured: old(self).notes()[id.0 as int].captured.update(at as int, bindings_model(mapping@)),
                    ..old(self).notes()[id.0 as int]
                },
            ),
    {
        match &mut self.nodes[id.0].kind {
            NodeKind::Lambda(_, _, environment) => {
                environment[at].bindings = Rc::new(mapping);
            },
            _ => {},
        }
        proof {
            assert(self.shapes() =~= old(self).shapes()) by {
                assert forall|i: int| 0 <= i < self.nodes@.len() implies shape_of(self.nodes@[i].kind) == shape_of(
                    old(self).nodes@[i].kind,
                ) by {
                    if i == id.0 {
                        match (self.nodes@[i].kind, old(self).nodes@[i].kind) {
                            (NodeKind::Lambda(_, _, now), NodeKind::Lambda(_, _, before)) => {
                                assert(crate::infer_model::captures_of(now@) =~= crate::infer_model::captures_of(
                                    before@,
                                ));
                            },
                            _ => {},
                        }
                    }
                }
            }
            assert(self.locations() =~= old(self).locations());
            assert(self.notes()[id.0 as int].captured =~= old(self).notes()[id.0 as int].captured.update(
                at as int,
                bindings_model(mapping@),
            ));
            assert(self.notes() =~= old(self).notes().update(
                id.0 as int,
                Note {
                    captured: old(self).notes()[id.0 as int].captured.update(at as int, bindings_model(mapping@)),
                    ..old(self).notes()[id.0 as int]
                },
            ));
        }
    }

    /// Notes whether the match node is fit for the construction of its decision tree.
    pub fn set_ready(&mut self, id: AstId, ready: bool)
        requires
            old(self).has(id),
            old(self).node(id).kind is Match,
        ensures
            same_shape(*final(self), *old(self)),
            final(self).notes() == old(self).notes().update(
                id.0 as int,
                Note { ready, ..old(self).notes()[id.0 as int] },
            ),
    {
        match &mut self.nodes[id.0].kind {
            NodeKind::Match(_, _, slot) => {
                *slot = ready;
            },
            _ => {},
        }
        proof {
            assert(self.shapes() =~= old(self).shapes());
            assert(self.locations() =~= old(self).locations());
            assert(self.notes() =~= old(self).notes().update(
                id.0 as int,
                Note { ready, ..old(self).notes()[id.0 as int] },
            ));
        }
    }
}

} // verus!
