//! What inference makes of each kind of node: its type, the obligations that arise in
//! it, and what it leaves in the cache and in the nodes.
use vstd::prelude::*;
use crate::cache::DefinitionKind;
use crate::constraints::first_match;
use crate::error::{Fault, Location, Mismatch};
use crate::generalize::free_variables;
use crate::infer_model::{DefinitionModel, Knowledge, Note, Shape};
use crate::infer_rules::{assigned, 
    bind_captures, bind_pattern, environment_type, generalizable, infer_literal, noted, place,
    unit, uses, with_type, Mind, Outline,
};
use crate::infer_state::{
    fresh, fresh_each, member_access_trait, member_trait_name, obligation, reported, unified,
    with_variable,
};
use crate::instantiate::instance_of;
use crate::resolve::resolve_all;
use crate::substitute::{rename, rename_each, shorter, zip_bindings, Renaming};
use crate::traits::{Callsite, Constraint, Signature};
use crate::types::{
    AstId, DefinitionInfoId, ImplInfoId, ImplScopeId, LetBindingLevel, PrimitiveType, Scheme, Term,
    TraitInfoId, TypeVariableId, VariableId, INITIAL_LEVEL,
};
use crate::unify::{commit, RECURSION_LIMIT};

verus! {

/// A type with the obligations that arose in inferring it.
pub type Typed = (Term, Seq<Constraint>);

/// A typed node, or why there is none, and the mind after.
pub type Inference = (Result<Typed, Fault>, Mind);

/// The type of the node and the obligations that arise in it. The type is noted in the
/// node.
#[verifier::opaque]
pub open spec fn infer(o: Outline, m: Mind, id: AstId, fuel: nat) -> Inference
    decreases fuel, 0nat, 0nat,
{
    if fuel == 0 {
        (Err(Fault::RecursionLimit), m)
    } else if id.0 >= o.shapes.len() || m.notes.len() != o.shapes.len() || o.places.len() != o.shapes.len() {
        (Err(Fault::Malformed), m)
    } else {
        let (inferred, m1) = infer_kind(o, m, id, (fuel - 1) as nat);
        match inferred {
            Err(fault) => (Err(fault), m),
            Ok((typ, constraints)) => (Ok((typ, constraints)), Mind { notes: noted(m1.notes, id, typ), ..m1 }),
        }
    }
}

/// The type of the node by the rule for its kind.
#[verifier::opaque]
pub open spec fn infer_kind(o: Outline, m: Mind, id: AstId, fuel: nat) -> Inference
    decreases fuel, 9nat, 0nat,
{
    let here = place(o, id);
    match o.shapes[id.0 as int] {
        Shape::Literal(value) => infer_literal(o, m, id, value),
        Shape::Variable(_, _, _, _) => infer_variable(o, m, id, fuel),
        Shape::Lambda(_, _, _) => infer_lambda(o, m, id, fuel),
        Shape::FunctionCall(_, _) => infer_call(o, m, id, fuel),
        Shape::Definition(_, _, _, _) => infer_definition(o, m, id, fuel),
        Shape::If(_, _, _) => infer_if(o, m, id, fuel),
        Shape::Match(_, _) => infer_match(o, m, id, fuel),
        Shape::TypeDefinition => (Ok((unit(), Seq::empty())), m),
        Shape::TypeAnnotation(lhs, _) => {
            let (inferred, m1) = infer(o, m, lhs, fuel);
            match inferred {
                Err(fault) => (Err(fault), m),
                Ok((typ, constraints)) => match m1.notes[id.0 as int].typ {
                    None => (Err(Fault::Malformed), m),
                    Some(annotation) => (
                        Ok((typ, constraints)),
                        Mind { k: unified(m1.k, typ, annotation, here), ..m1 },
                    ),
                },
            }
        },
        Shape::Import => (Ok((unit(), Seq::empty())), m),
        Shape::TraitDefinition(declarations, level) => infer_declarations(o, m, declarations, level),
        Shape::TraitImpl(_, _, _, _) => infer_trait_impl(o, m, id, fuel),
        Shape::Return(expression) => {
            let (inferred, m1) = infer(o, m, expression, fuel);
            match inferred {
                Err(fault) => (Err(fault), m),
                Ok((_, constraints)) => {
                    let (typ, k2) = fresh(m1.k);
                    (Ok((typ, constraints)), Mind { k: k2, ..m1 })
                },
            }
        },
        Shape::Sequence(statements) => if statements.len() == 0 {
            (Err(Fault::Malformed), m)
        } else {
            let (inferred, m1) = infer_each(o, m, statements, 0, fuel);
            match inferred {
                Err(fault) => (Err(fault), m),
                Ok((types, constraints)) => (Ok((types[types.len() - 1], constraints)), m1),
            }
        },
        Shape::Extern(declarations, level) => infer_declarations(o, m, declarations, level),
        Shape::MemberAccess(lhs, field) => {
            let (inferred, m1) = infer(o, m, lhs, fuel);
            match inferred {
                Err(fault) => (Err(fault), m),
                Ok((collection, constraints)) => {
                    let (trait_id, k2) = member_access_trait(m1.k, field, LetBindingLevel(m1.k.level));
                    let (field_type, k3) = fresh(k2);
                    let (callsite, k4) = with_variable(k3, member_trait_name(field), here);
                    let (constraint, k5) = obligation(k4, trait_id, seq![collection, field_type], callsite);
                    match constraint {
                        Err(fault) => (Err(fault), m),
                        Ok(c) => (Ok((field_type, constraints.push(c))), Mind { k: k5, ..m1 }),
                    }
                },
            }
        },
        Shape::Assignment(lhs, rhs) => {
            let (first, m1) = infer(o, m, lhs, fuel);
            match first {
                Err(fault) => (Err(fault), m),
                Ok((_, constraints)) => {
                    let (second, m2) = infer(o, m1, rhs, fuel);
                    match second {
                        Err(fault) => (Err(fault), m),
                        Ok((_, more)) => (
                            Ok((unit(), constraints + more)),
                            Mind { k: assigned(o, m2.k, id, lhs), ..m2 },
                        ),
                    }
                },
            }
        },
    }
}

/// The types of the nodes from position `at` on, each inferred in turn, and the
/// obligations that arise in them.
#[verifier::opaque]
pub open spec fn infer_each(o: Outline, m: Mind, ids: Seq<AstId>, at: nat, fuel: nat) -> (
    Result<(Seq<Term>, Seq<Constraint>), Fault>,
    Mind,
)
    decreases fuel, 7nat, ids.len() - at,
{
    if at >= ids.len() {
        (Ok((Seq::empty(), Seq::empty())), m)
    } else {
        let (first, m1) = infer(o, m, ids[at as int], fuel);
        match first {
            Err(fault) => (Err(fault), m),
            Ok((typ, constraints)) => {
                let (rest, m2) = infer_each(o, m1, ids, at + 1, fuel);
                match rest {
                    Err(fault) => (Err(fault), m),
                    Ok((types, more)) => (Ok((seq![typ] + types, constraints + more)), m2),
                }
            },
        }
    }
}

/// The type of a use of a variable: an instance of the type of its definition, which is
/// inferred first where it has none yet. The instantiation is noted in the node.
#[verifier::opaque]
pub open spec fn infer_variable(o: Outline, m: Mind, id: AstId, fuel: nat) -> Inference
    decreases fuel, 8nat, 0nat,
{
    match o.shapes[id.0 as int] {
        Shape::Variable(_, Some(definition), Some(occurrence), Some(scope)) => if definition.0
            >= m.k.definitions.len() {
            (Err(Fault::UnknownDefinition(definition.0)), m)
        } else {
            let (found, m1) = match m.k.definitions[definition.0 as int].typ {
                Some(scheme) => {
                    let (constraints, k1) = uses(m.k, definition, scope, occurrence);
                    match constraints {
                        Err(fault) => (Err(fault), m),
                        Ok(cs) => (Ok((scheme, cs)), Mind { k: k1, ..m }),
                    }
                },
                None => {
                    let (nested, m1) = if m.k.definitions[definition.0 as int].definition is Some {
                        infer_nested_definition(o, m, definition, scope, occurrence, fuel)
                    } else {
                        let (typ, k1) = fresh(m.k);
                        (Ok((Scheme::MonoType(typ), Seq::empty())), Mind { k: k1, ..m })
                    };
                    match nested {
                        Err(fault) => (Err(fault), m),
                        Ok((scheme, cs)) => if definition.0 >= m1.k.definitions.len() {
                            (Err(Fault::UnknownDefinition(definition.0)), m)
                        } else {
                            (Ok((scheme, cs)), Mind { k: with_type(m1.k, definition, Some(scheme)), ..m1 })
                        },
                    }
                },
            };
            match found {
                Err(fault) => (Err(fault), m),
                Ok((scheme, cs)) => {
                    let (instance, store) = instance_of(scheme, cs, m1.k.store, m1.k.level, RECURSION_LIMIT as nat);
                    match instance {
                        Err(fault) => (Err(fault), m),
                        Ok((typ, constraints, mapping)) => if m1.notes.len() != o.shapes.len() {
                            (Err(Fault::Malformed), m)
                        } else {
                            (
                                Ok((typ, constraints)),
                                Mind {
                                    k: Knowledge { store, ..m1.k },
                                    notes: m1.notes.update(
                                        id.0 as int,
                                        Note { mapping, ..m1.notes[id.0 as int] },
                                    ),
                                },
                            )
                        },
                    }
                },
            }
        },
        _ => (Err(Fault::Malformed), m),
    }
}

/// The type of a definition that a use reaches before inference has: the definition is
/// given a new type variable for its type, so that it may use itself, and then the node
/// that defines it is inferred.
#[verifier::opaque]
pub open spec fn infer_nested_definition(
    o: Outline,
    m: Mind,
    definition: DefinitionInfoId,
    scope: ImplScopeId,
    callsite: VariableId,
    fuel: nat,
) -> (Result<(Scheme, Seq<Constraint>), Fault>, Mind)
    decreases fuel, 6nat, 0nat,
{
    let (typevar, k1) = fresh(m.k);
    let m1 = Mind { k: with_type(k1, definition, Some(Scheme::MonoType(typevar))), ..m };
    let (inferred, m2) = match m.k.definitions[definition.0 as int].definition {
        Some(DefinitionKind::Definition(node)) => infer(o, m1, node, fuel),
        Some(DefinitionKind::TraitDefinition(node)) => infer(o, m1, node, fuel),
        Some(DefinitionKind::Extern(node)) => infer(o, m1, node, fuel),
        _ => (Ok((unit(), Seq::empty())), m1),
    };
    match inferred {
        Err(fault) => (Err(fault), m),
        Ok(_) => {
            let (constraints, k3) = uses(m2.k, definition, scope, callsite);
            match constraints {
                Err(fault) => (Err(fault), m),
                Ok(cs) => match k3.definitions[definition.0 as int].typ {
                    None => (Err(Fault::Malformed), m),
                    Some(scheme) => (Ok((scheme, cs)), Mind { k: k3, ..m2 }),
                },
            }
        },
    }
}

/// What becomes of the mind when each parameter of a lambda is bound to its type, from
/// position `at` on.
pub open spec fn bind_parameters(o: Outline, m: Mind, args: Seq<AstId>, types: Seq<Term>, at: nat) -> (
    Result<(), Fault>,
    Mind,
)
    decreases args.len() - at,
{
    if at >= args.len() || at >= types.len() {
        (Ok(()), m)
    } else {
        let (first, m1) = bind_pattern(
            o,
            m,
            args[at as int],
            types[at as int],
            Seq::empty(),
            false,
            RECURSION_LIMIT as nat,
        );
        match first {
            Err(fault) => (Err(fault), m),
            Ok(()) => bind_parameters(o, m1, args, types, at + 1),
        }
    }
}

/// The type of a lambda: a function from new type variables for the parameters, to which
/// the patterns of the parameters are bound, to the type of the body, with the types of
/// the captured variables for its environment.
#[verifier::opaque]
pub open spec fn infer_lambda(o: Outline, m: Mind, id: AstId, fuel: nat) -> Inference
    decreases fuel, 8nat, 0nat,
{
    match o.shapes[id.0 as int] {
        Shape::Lambda(args, body, captures) => {
            let (parameter_types, k1) = fresh_each(m.k, args.len());
            let (bound, m1) = bind_parameters(o, Mind { k: k1, ..m }, args, parameter_types, 0);
            match bound {
                Err(fault) => (Err(fault), m),
                Ok(()) => {
                    let (captured, m2) = bind_captures(m1, id, captures, 0);
                    if captured is Err {
                        (Err(captured->Err_0), m)
                    } else if body.0 >= o.shapes.len() || m2.notes.len() != o.shapes.len() {
                        (Err(Fault::Malformed), m)
                    } else {
                        let (inferred, m3) = match m2.notes[body.0 as int].typ {
                            Some(given) => if fuel == 0 {
                                (Err(Fault::RecursionLimit), m)
                            } else {
                                let (found, after) = infer_kind(o, m2, body, (fuel - 1) as nat);
                                match found {
                                    Err(fault) => (Err(fault), m),
                                    Ok((return_type, constraints)) => (
                                        Ok((given, constraints)),
                                        Mind { k: unified(after.k, given, return_type, place(o, id)), ..after },
                                    ),
                                }
                            },
                            None => infer(o, m2, body, fuel),
                        };
                        match inferred {
                            Err(fault) => (Err(fault), m),
                            Ok((return_type, constraints)) => match environment_type(m3.k, captures) {
                                Err(fault) => (Err(fault), m),
                                Ok(environment) => (
                                    Ok(
                                        (
                                            Term::Function(
                                                parameter_types,
                                                Box::new(return_type),
                                                Box::new(environment),
                                                false,
                                            ),
                                            constraints,
                                        ),
                                    ),
                                    m3,
                                ),
                            },
                        }
                    }
                },
            }
        },
        _ => (Err(Fault::Malformed), m),
    }
}

/// The type of a call: a new type variable, which is the return type of the type that the
/// function is unified with, a function from the types of the arguments.
#[verifier::opaque]
pub open spec fn infer_call(o: Outline, m: Mind, id: AstId, fuel: nat) -> Inference
    decreases fuel, 8nat, 0nat,
{
    match o.shapes[id.0 as int] {
        Shape::FunctionCall(function, args) => {
            let (first, m1) = infer(o, m, function, fuel);
            match first {
                Err(fault) => (Err(fault), m),
                Ok((f, constraints)) => {
                    let (second, m2) = infer_each(o, m1, args, 0, fuel);
                    match second {
                        Err(fault) => (Err(fault), m),
                        Ok((parameters, more)) => {
                            let (return_type, k3) = fresh(m2.k);
                            let (environment, k4) = fresh(k3);
                            let expected = Term::Function(
                                parameters,
                                Box::new(return_type),
                                Box::new(environment),
                                false,
                            );
                            (
                                Ok((return_type, constraints + more)),
                                Mind { k: unified(k4, f, expected, place(o, id)), ..m2 },
                            )
                        },
                    }
                },
            }
        },
        _ => (Err(Fault::Malformed), m),
    }
}

/// What becomes of a definition: its right-hand side is inferred one level up, its
/// pattern is bound to the type found, and where the right-hand side may be generalised
/// the obligations that arose are resolved, those that are left are required of the
/// users of the definition, and the type is generalised.
#[verifier::opaque]
pub open spec fn infer_definition(o: Outline, m: Mind, id: AstId, fuel: nat) -> Inference
    decreases fuel, 8nat, 0nat,
{
    match o.shapes[id.0 as int] {
        Shape::Definition(pattern, expr, _, level) => if m.notes[id.0 as int].typ is Some {
            (Ok((unit(), Seq::empty())), m)
        } else {
            match level {
                None => (Err(Fault::Malformed), m),
                Some(level) => if level.0 == 0 {
                    (Err(Fault::Malformed), m)
                } else {
                    let previous = m.k.level;
                    let m0 = Mind { k: Knowledge { level: level.0, ..m.k }, notes: noted(m.notes, id, unit()) };
                    let (inferred, m1) = infer(o, m0, expr, fuel);
                    match inferred {
                        Err(fault) => (Err(fault), m),
                        Ok((t, constraints)) => {
                            let lowered = Mind { k: Knowledge { level: (level.0 - 1) as usize, ..m1.k }, ..m1 };
                            let (bound, m2) = bind_pattern(
                                o,
                                lowered,
                                pattern,
                                t,
                                Seq::empty(),
                                false,
                                RECURSION_LIMIT as nat,
                            );
                            if bound is Err {
                                (Err(bound->Err_0), m)
                            } else if pattern.0 >= m2.notes.len() {
                                (Err(Fault::Malformed), m)
                            } else {
                                let m3 = if m2.notes[pattern.0 as int].typ is None {
                                    Mind { notes: noted(m2.notes, pattern, t), ..m2 }
                                } else {
                                    m2
                                };
                                let (left, m4) = if generalizable(o, expr) {
                                    generalize_definition(o, m3, pattern, t, constraints)
                                } else {
                                    (Ok(constraints), m3)
                                };
                                match left {
                                    Err(fault) => (Err(fault), m),
                                    Ok(traits) => (
                                        Ok((unit(), traits)),
                                        Mind { k: Knowledge { level: previous, ..m4.k }, ..m4 },
                                    ),
                                }
                            }
                        },
                    }
                },
            }
        },
        _ => (Err(Fault::Malformed), m),
    }
}

/// The generalisation of a definition: the obligations are resolved, and the pattern is
/// bound anew, with what is left of them and to the generalised type.
pub open spec fn generalize_definition(o: Outline, m: Mind, pattern: AstId, t: Term, constraints: Seq<Constraint>) -> (
    Result<Seq<Constraint>, Fault>,
    Mind,
) {
    match m.notes[pattern.0 as int].typ {
        None => (Err(Fault::Malformed), m),
        Some(pattern_type) => match free_variables(
            pattern_type,
            false,
            m.k.store,
            m.k.level,
            RECURSION_LIMIT as nat,
        ) {
            Err(fault) => (Err(fault), m),
            Ok(typevars) => {
                let (passed, k1) = resolve_all(m.k, constraints, constraints.len(), typevars);
                match passed {
                    Err(fault) => (Err(fault), m),
                    Ok(exposed) => {
                        let (bound, m2) = bind_pattern(
                            o,
                            Mind { k: k1, ..m },
                            pattern,
                            t,
                            exposed,
                            true,
                            RECURSION_LIMIT as nat,
                        );
                        match bound {
                            Err(fault) => (Err(fault), m),
                            Ok(()) => (Ok(Seq::empty()), m2),
                        }
                    },
                }
            },
        },
    }
}

/// The type of a conditional: the condition is a boolean, and the branches have the same
/// type, which is that of the conditional; without an else-branch it is unit.
#[verifier::opaque]
pub open spec fn infer_if(o: Outline, m: Mind, id: AstId, fuel: nat) -> Inference
    decreases fuel, 8nat, 0nat,
{
    match o.shapes[id.0 as int] {
        Shape::If(condition, then_branch, otherwise) => {
            let (first, m1) = infer(o, m, condition, fuel);
            match first {
                Err(fault) => (Err(fault), m),
                Ok((condition_type, constraints)) => {
                    let boolean = Term::Primitive(PrimitiveType::BooleanType);
                    let m2 = Mind { k: unified(m1.k, condition_type, boolean, place(o, condition)), ..m1 };
                    let (second, m3) = infer(o, m2, then_branch, fuel);
                    match second {
                        Err(fault) => (Err(fault), m),
                        Ok((then_type, more)) => match otherwise {
                            None => (Ok((unit(), constraints + more)), m3),
                            Some(branch) => {
                                let (third, m4) = infer(o, m3, branch, fuel);
                                match third {
                                    Err(fault) => (Err(fault), m),
                                    Ok((otherwise_type, last)) => (
                                        Ok((then_type, constraints + more + last)),
                                        Mind { k: unified(m4.k, then_type, otherwise_type, place(o, id)), ..m4 },
                                    ),
                                }
                            },
                        },
                    }
                },
            }
        },
        _ => (Err(Fault::Malformed), m),
    }
}

/// The branches of a match from position `at` on: each pattern has the type of the
/// scrutinee, and each body the type of the first body.
#[verifier::opaque]
pub open spec fn infer_branches(
    o: Outline,
    m: Mind,
    branches: Seq<(AstId, AstId)>,
    at: nat,
    scrutinee: Term,
    result: Term,
    fuel: nat,
) -> (Result<Seq<Constraint>, Fault>, Mind)
    decreases fuel, 7nat, branches.len() - at,
{
    if at >= branches.len() {
        (Ok(Seq::empty()), m)
    } else {
        let (pattern, body) = branches[at as int];
        let (first, m1) = infer(o, m, pattern, fuel);
        match first {
            Err(fault) => (Err(fault), m),
            Ok((pattern_type, constraints)) => {
                let (second, m2) = infer(o, m1, body, fuel);
                match second {
                    Err(fault) => (Err(fault), m),
                    Ok((body_type, more)) => {
                        let k3 = unified(m2.k, scrutinee, pattern_type, place(o, pattern));
                        let k4 = unified(k3, result, body_type, place(o, body));
                        let (rest, m3) = infer_branches(
                            o,
                            Mind { k: k4, ..m2 },
                            branches,
                            at + 1,
                            scrutinee,
                            result,
                            fuel,
                        );
                        match rest {
                            Err(fault) => (Err(fault), m),
                            Ok(last) => (Ok(constraints + more + last), m3),
                        }
                    },
                }
            },
        }
    }
}

/// The type of a match: that of its first body, or unit without one. The match is fit for
/// the construction of its decision tree if nothing was reported while it was inferred.
#[verifier::opaque]
pub open spec fn infer_match(o: Outline, m: Mind, id: AstId, fuel: nat) -> Inference
    decreases fuel, 8nat, 0nat,
{
    match o.shapes[id.0 as int] {
        Shape::Match(expression, branches) => {
            let (first, m1) = infer(o, m, expression, fuel);
            match first {
                Err(fault) => (Err(fault), m),
                Ok((scrutinee, constraints)) => {
                    let (typed, m2) = if branches.len() == 0 {
                        (Ok((unit(), Seq::<Constraint>::empty())), m1)
                    } else {
                        let (pattern, body) = branches[0];
                        let (second, m2) = infer(o, m1, pattern, fuel);
                        match second {
                            Err(fault) => (Err(fault), m),
                            Ok((pattern_type, more)) => {
                                let m3 = Mind { k: unified(m2.k, scrutinee, pattern_type, place(o, pattern)), ..m2 };
                                let (third, m4) = infer(o, m3, body, fuel);
                                match third {
                                    Err(fault) => (Err(fault), m),
                                    Ok((result, last)) => {
                                        let (rest, m5) = infer_branches(o, m4, branches, 1, scrutinee, result, fuel);
                                        match rest {
                                            Err(fault) => (Err(fault), m),
                                            Ok(others) => (Ok((result, more + last + others)), m5),
                                        }
                                    },
                                }
                            },
                        }
                    };
                    match typed {
                        Err(fault) => (Err(fault), m),
                        Ok((result, more)) => if m2.notes.len() != o.shapes.len() {
                            (Err(Fault::Malformed), m)
                        } else {
                            (
                                Ok((result, constraints + more)),
                                Mind {
                                    notes: m2.notes.update(
                                        id.0 as int,
                                        Note {
                                            ready: m2.k.diagnostics.len() == m.k.diagnostics.len(),
                                            ..m2.notes[id.0 as int]
                                        },
                                    ),
                                    ..m2
                                },
                            )
                        },
                    }
                },
            }
        },
        _ => (Err(Fault::Malformed), m),
    }
}

/// What becomes of the mind when each declaration, from position `at` on, binds the
/// annotated pattern to the generalisation of the type it is annotated with.
pub open spec fn bind_declarations(o: Outline, m: Mind, declarations: Seq<AstId>, at: nat) -> (
    Result<(), Fault>,
    Mind,
)
    decreases declarations.len() - at,
{
    if at >= declarations.len() {
        (Ok(()), m)
    } else {
        let declaration = declarations[at as int];
        if declaration.0 >= o.shapes.len() || m.notes.len() != o.shapes.len() {
            (Err(Fault::Malformed), m)
        } else {
            match (o.shapes[declaration.0 as int], m.notes[declaration.0 as int].typ) {
                (Shape::TypeAnnotation(lhs, _), Some(rhs)) => {
                    let (first, m1) = bind_pattern(o, m, lhs, rhs, Seq::empty(), true, RECURSION_LIMIT as nat);
                    match first {
                        Err(fault) => (Err(fault), m),
                        Ok(()) => bind_declarations(o, m1, declarations, at + 1),
                    }
                },
                _ => (Err(Fault::Malformed), m),
            }
        }
    }
}

/// What becomes of the declarations of a trait or of names defined elsewhere: at the level
/// of the declaration, each name gets the generalisation of the type it is declared with.
pub open spec fn infer_declarations(
    o: Outline,
    m: Mind,
    declarations: Seq<AstId>,
    level: Option<LetBindingLevel>,
) -> Inference {
    match level {
        None => (Err(Fault::Malformed), m),
        Some(level) => {
            let previous = m.k.level;
            let (bound, m1) = bind_declarations(
                o,
                Mind { k: Knowledge { level: level.0, ..m.k }, ..m },
                declarations,
                0,
            );
            match bound {
                Err(fault) => (Err(fault), m),
                Ok(()) => (Ok((unit(), Seq::empty())), Mind { k: Knowledge { level: previous, ..m1.k }, ..m1 }),
            }
        },
    }
}

/// The member of the trait with the name, among the members from position `from` on.
pub open spec fn member_named(k: Knowledge, members: Seq<DefinitionInfoId>, name: Seq<char>, from: nat) -> Option<
    DefinitionInfoId,
>
    decreases members.len() - from,
{
    if from >= members.len() {
        None
    } else if members[from as int].0 < k.definitions.len() && k.definitions[members[from as int].0 as int].name
        == name {
        Some(members[from as int])
    } else {
        member_named(k, members, name, from + 1)
    }
}

/// The member of the trait with the name, once it has a type: the declaration of the
/// trait is inferred where the member has none yet.
#[verifier::opaque]
pub open spec fn lookup_member(o: Outline, m: Mind, name: Seq<char>, trait_id: TraitInfoId, fuel: nat) -> (
    Result<DefinitionInfoId, Fault>,
    Mind,
)
    decreases fuel, 5nat, 0nat,
{
    if trait_id.0 >= m.k.traits.len() {
        (Err(Fault::UnknownDefinition(trait_id.0)), m)
    } else {
        match member_named(m.k, m.k.traits[trait_id.0 as int].definitions, name, 0) {
            None => (Err(Fault::Malformed), m),
            Some(member) => if m.k.definitions[member.0 as int].typ is Some {
                (Ok(member), m)
            } else {
                match m.k.traits[trait_id.0 as int].trait_node {
                    None => (Err(Fault::Malformed), m),
                    Some(node) => if fuel == 0 {
                        (Err(Fault::RecursionLimit), m)
                    } else {
                        let (inferred, m1) = infer(o, m, node, fuel);
                        match inferred {
                            Err(fault) => (Err(fault), m),
                            Ok(_) => lookup_member(o, m1, name, trait_id, (fuel - 1) as nat),
                        }
                    },
                }
            },
        }
    }
}

/// The type that the trait declares for the member with the name.
#[verifier::opaque]
pub open spec fn member_type(o: Outline, m: Mind, name: Seq<char>, trait_id: TraitInfoId, fuel: nat) -> (
    Result<Scheme, Fault>,
    Mind,
)
    decreases fuel, 5nat, 1nat,
{
    let (found, m1) = lookup_member(o, m, name, trait_id, fuel);
    match found {
        Err(fault) => (Err(fault), m),
        Ok(member) => if member.0 >= m1.k.definitions.len() {
            (Err(Fault::UnknownDefinition(member.0)), m)
        } else {
            match m1.k.definitions[member.0 as int].typ {
                None => (Err(Fault::Malformed), m),
                Some(scheme) => (Ok(scheme), m1),
            }
        },
    }
}

/// The traits that the trait requires of the users of the member with the name.
#[verifier::opaque]
pub open spec fn member_traits(o: Outline, m: Mind, name: Seq<char>, trait_id: TraitInfoId, fuel: nat) -> (
    Result<Seq<(Signature, Callsite)>, Fault>,
    Mind,
)
    decreases fuel, 5nat, 1nat,
{
    let (found, m1) = lookup_member(o, m, name, trait_id, fuel);
    match found {
        Err(fault) => (Err(fault), m),
        Ok(member) => if member.0 >= m1.k.definitions.len() {
            (Err(Fault::UnknownDefinition(member.0)), m)
        } else {
            (Ok(m1.k.definitions[member.0 as int].required_traits), m1)
        },
    }
}

/// What becomes of the mind, and of the replacements made so far, when the pattern of a
/// definition of an impl is bound: each name gets the type that the trait declares for
/// it, with the type variables of the trait replaced as for the whole impl.
#[verifier::opaque]
pub open spec fn bind_pattern_in_impl(
    o: Outline,
    m: Mind,
    pattern: AstId,
    trait_id: TraitInfoId,
    bindings: Map<TypeVariableId, Term>,
    fuel: nat,
) -> (Result<Map<TypeVariableId, Term>, Fault>, Mind)
    decreases fuel, 6nat, 0nat,
{
    if fuel == 0 {
        (Err(Fault::RecursionLimit), m)
    } else if pattern.0 >= o.shapes.len() || o.places.len() != o.shapes.len() {
        (Err(Fault::Malformed), m)
    } else {
        match o.shapes[pattern.0 as int] {
            Shape::Variable(name, definition, _, _) => {
                let (found, m1) = member_type(o, m, name, trait_id, fuel);
                match (found, definition) {
                    (Err(fault), _) => (Err(fault), m),
                    (Ok(_), None) => (Err(Fault::Malformed), m),
                    (Ok(scheme), Some(id)) => if id.0 >= m1.k.definitions.len() {
                        (Err(Fault::UnknownDefinition(id.0)), m)
                    } else {
                        let body = match scheme {
                            Scheme::MonoType(t) => t,
                            Scheme::PolyType(_, t) => t,
                        };
                        let (renamed, state) = rename(
                            body,
                            Renaming { fresh: bindings, store: m1.k.store },
                            LetBindingLevel(m1.k.level),
                            RECURSION_LIMIT as nat,
                        );
                        match renamed {
                            Err(fault) => (Err(fault), m),
                            Ok(t) => (
                                Ok(state.fresh),
                                Mind {
                                    k: with_type(
                                        Knowledge { store: state.store, ..m1.k },
                                        id,
                                        Some(Scheme::MonoType(t)),
                                    ),
                                    ..m1
                                },
                            ),
                        }
                    },
                }
            },
            Shape::TypeAnnotation(lhs, _) => bind_pattern_in_impl(o, m, lhs, trait_id, bindings, (fuel - 1) as nat),
            Shape::FunctionCall(_, args) => bind_patterns_in_impl(o, m, args, 0, trait_id, bindings, (fuel - 1) as nat),
            _ => (Ok(bindings), Mind { k: reported(m.k, Mismatch::InvalidImplPattern, place(o, pattern)), ..m }),
        }
    }
}

/// [`bind_pattern_in_impl`] for each of the patterns from position `at` on.
#[verifier::opaque]
pub open spec fn bind_patterns_in_impl(
    o: Outline,
    m: Mind,
    patterns: Seq<AstId>,
    at: nat,
    trait_id: TraitInfoId,
    bindings: Map<TypeVariableId, Term>,
    fuel: nat,
) -> (Result<Map<TypeVariableId, Term>, Fault>, Mind)
    decreases fuel, 7nat, patterns.len() - at,
{
    if at >= patterns.len() {
        (Ok(bindings), m)
    } else {
        let (first, m1) = bind_pattern_in_impl(o, m, patterns[at as int], trait_id, bindings, fuel);
        match first {
            Err(fault) => (Err(fault), m),
            Ok(next) => bind_patterns_in_impl(o, m1, patterns, at + 1, trait_id, next, fuel),
        }
    }
}

/// The ids under which the traits that the definition uses, from position `at` on, are
/// given by the trait or by the impl, and what is known once the types of each were
/// unified with those of the trait that gives it. A trait that nothing gives is
/// reported.
pub open spec fn given_ids(
    k: Knowledge,
    used: Seq<(Signature, Callsite)>,
    at: nat,
    candidates: Seq<Signature>,
    location: Location,
) -> (Seq<crate::types::TraitConstraintId>, Knowledge)
    decreases used.len() - at,
{
    if at >= used.len() {
        (Seq::empty(), k)
    } else {
        match first_match(used[at as int].0, candidates, 0, k.store) {
            Some((id, pending)) => {
                let (rest, k1) = given_ids(
                    Knowledge { store: commit(k.store, pending), ..k },
                    used,
                    at + 1,
                    candidates,
                    location,
                );
                (seq![id] + rest, k1)
            },
            None => given_ids(
                reported(k, Mismatch::TraitNotGiven(used[at as int].0.trait_id.0, used[at as int].0.args), location),
                used,
                at + 1,
                candidates,
                location,
            ),
        }
    }
}

/// The required traits with the first of them given the ids, each in its position.
pub open spec fn with_ids(used: Seq<(Signature, Callsite)>, ids: Seq<crate::types::TraitConstraintId>) -> Seq<
    (Signature, Callsite),
> {
    Seq::new(
        used.len(),
        |i: int|
            if i < ids.len() {
                (Signature { id: ids[i], ..used[i].0 }, used[i].1)
            } else {
                used[i]
            },
    )
}

/// What becomes of the mind when it is checked that the definitions of the pattern of a
/// definition of an impl use no trait but those that the impl or the declaration of the
/// trait gives them: each trait used gets the id of the trait that gives it.
#[verifier::opaque]
pub open spec fn check_given(
    o: Outline,
    m: Mind,
    pattern: AstId,
    trait_id: TraitInfoId,
    given: Seq<Signature>,
    fuel: nat,
) -> (Result<(), Fault>, Mind)
    decreases fuel, 6nat, 0nat,
{
    if fuel == 0 {
        (Err(Fault::RecursionLimit), m)
    } else if pattern.0 >= o.shapes.len() || o.places.len() != o.shapes.len() {
        (Err(Fault::Malformed), m)
    } else {
        match o.shapes[pattern.0 as int] {
            Shape::Variable(name, definition, _, _) => {
                let (found, m1) = member_traits(o, m, name, trait_id, fuel);
                match (found, definition) {
                    (Err(fault), _) => (Err(fault), m),
                    (Ok(_), None) => (Err(Fault::Malformed), m),
                    (Ok(useable), Some(id)) => if id.0 >= m1.k.definitions.len() {
                        (Err(Fault::UnknownDefinition(id.0)), m)
                    } else {
                        let used = m1.k.definitions[id.0 as int].required_traits;
                        let candidates = Seq::new(useable.len(), |i: int| useable[i].0) + given;
                        let (ids, k2) = given_ids(m1.k, used, 0, candidates, place(o, pattern));
                        (
                            Ok(()),
                            Mind {
                                k: Knowledge {
                                    definitions: k2.definitions.update(
                                        id.0 as int,
                                        DefinitionModel {
                                            required_traits: with_ids(used, ids),
                                            ..k2.definitions[id.0 as int]
                                        },
                                    ),
                                    ..k2
                                },
                                ..m1
                            },
                        )
                    },
                }
            },
            Shape::TypeAnnotation(lhs, _) => check_given(o, m, lhs, trait_id, given, (fuel - 1) as nat),
            Shape::FunctionCall(_, args) => check_all_given(o, m, args, 0, trait_id, given, (fuel - 1) as nat),
            _ => (Ok(()), Mind { k: reported(m.k, Mismatch::InvalidImplPattern, place(o, pattern)), ..m }),
        }
    }
}

/// [`check_given`] for each of the patterns from position `at` on.
#[verifier::opaque]
pub open spec fn check_all_given(
    o: Outline,
    m: Mind,
    patterns: Seq<AstId>,
    at: nat,
    trait_id: TraitInfoId,
    given: Seq<Signature>,
    fuel: nat,
) -> (Result<(), Fault>, Mind)
    decreases fuel, 7nat, patterns.len() - at,
{
    if at >= patterns.len() {
        (Ok(()), m)
    } else {
        let (first, m1) = check_given(o, m, patterns[at as int], trait_id, given, fuel);
        match first {
            Err(fault) => (Err(fault), m),
            Ok(()) => check_all_given(o, m1, patterns, at + 1, trait_id, given, fuel),
        }
    }
}

/// What is known once each of the obligations, from position `at` on, was reported as one
/// that a definition of an impl that is no function may not have.
pub open spec fn report_each(k: Knowledge, constraints: Seq<Constraint>, at: nat, location: Location) -> Knowledge
    decreases constraints.len() - at,
{
    if at >= constraints.len() {
        k
    } else {
        report_each(
            reported(
                k,
                Mismatch::TraitOutsideFunction(
                    constraints[at as int].signature.trait_id.0,
                    constraints[at as int].signature.args,
                ),
                location,
            ),
            constraints,
            at + 1,
            location,
        )
    }
}

/// What becomes of the mind when the definitions of an impl, from position `at` on, are
/// inferred: each is given the type that the trait declares for it, is inferred, and is
/// checked to use no trait but those given.
#[verifier::opaque]
pub open spec fn infer_impl_definitions(
    o: Outline,
    m: Mind,
    definitions: Seq<AstId>,
    at: nat,
    trait_id: TraitInfoId,
    impl_id: ImplInfoId,
    bindings: Map<TypeVariableId, Term>,
    fuel: nat,
) -> (Result<(), Fault>, Mind)
    decreases fuel, 7nat, definitions.len() - at,
{
    if at >= definitions.len() {
        (Ok(()), m)
    } else {
        let definition = definitions[at as int];
        if definition.0 >= o.shapes.len() || o.places.len() != o.shapes.len() {
            (Err(Fault::Malformed), m)
        } else {
            match o.shapes[definition.0 as int] {
                Shape::Definition(pattern, _, _, _) => {
                    let (bound, m1) = bind_pattern_in_impl(o, m, pattern, trait_id, bindings, fuel);
                    match bound {
                        Err(fault) => (Err(fault), m),
                        Ok(next) => {
                            let (inferred, m2) = infer(o, m1, definition, fuel);
                            match inferred {
                                Err(fault) => (Err(fault), m),
                                Ok((_, constraints)) => if impl_id.0 >= m2.k.impls.len() {
                                    (Err(Fault::UnknownDefinition(impl_id.0)), m)
                                } else {
                                    let (checked, m3) = check_given(
                                        o,
                                        m2,
                                        pattern,
                                        trait_id,
                                        m2.k.impls[impl_id.0 as int].given,
                                        fuel,
                                    );
                                    match checked {
                                        Err(fault) => (Err(fault), m),
                                        Ok(()) => infer_impl_definitions(
                                            o,
                                            Mind {
                                                k: report_each(m3.k, constraints, 0, place(o, definition)),
                                                ..m3
                                            },
                                            definitions,
                                            at + 1,
                                            trait_id,
                                            impl_id,
                                            next,
                                            fuel,
                                        ),
                                    }
                                },
                            }
                        },
                    }
                },
                _ => (Err(Fault::Malformed), m),
            }
        }
    }
}

/// What becomes of an impl: the type variables of the trait are replaced by the types
/// that the impl is for, in which every type variable is replaced by a new one, and the
/// definitions of the impl are inferred against the types that the trait declares.
#[verifier::opaque]
pub open spec fn infer_trait_impl(o: Outline, m: Mind, id: AstId, fuel: nat) -> Inference
    decreases fuel, 8nat, 0nat,
{
    match o.shapes[id.0 as int] {
        Shape::TraitImpl(trait_info, impl_id, trait_arg_types, definitions) => if m.notes[id.0 as int].typ is Some {
            (Ok((unit(), Seq::empty())), m)
        } else {
            match (trait_info, impl_id) {
                (Some(trait_id), Some(impl_id)) => if trait_id.0 >= m.k.traits.len() {
                    (Err(Fault::UnknownDefinition(trait_id.0)), m)
                } else {
                    let info = m.k.traits[trait_id.0 as int];
                    let typevars = info.typeargs + info.fundeps;
                    let (renamed, state) = rename_each(
                        trait_arg_types,
                        Renaming { fresh: Map::empty(), store: m.k.store },
                        LetBindingLevel(m.k.level),
                        RECURSION_LIMIT as nat,
                    );
                    match renamed {
                        Err(fault) => (Err(fault), m),
                        Ok(types) => {
                            let bindings = zip_bindings(typevars, types, shorter(typevars.len(), types.len()));
                            let (inferred, m1) = infer_impl_definitions(
                                o,
                                Mind { k: Knowledge { store: state.store, ..m.k }, ..m },
                                definitions,
                                0,
                                trait_id,
                                impl_id,
                                bindings,
                                fuel,
                            );
                            match inferred {
                                Err(fault) => (Err(fault), m),
                                Ok(()) => (Ok((unit(), Seq::empty())), m1),
                            }
                        },
                    }
                },
                _ => (Err(Fault::Malformed), m),
            }
        },
        _ => (Err(Fault::Malformed), m),
    }
}

/// What becomes of the mind when a whole program is inferred from its root: at the level
/// of top-level definitions; the obligations left at the end are resolved, and none may be
/// left over.
pub open spec fn infer_program(o: Outline, m: Mind, root: AstId) -> (Result<(), Fault>, Mind) {
    let (inferred, m1) = infer(
        o,
        Mind { k: Knowledge { level: INITIAL_LEVEL, ..m.k }, ..m },
        root,
        RECURSION_LIMIT as nat,
    );
    match inferred {
        Err(fault) => (Err(fault), m),
        Ok((_, constraints)) => {
            let (passed, k2) = resolve_all(
                Knowledge { level: (INITIAL_LEVEL - 1) as usize, ..m1.k },
                constraints,
                constraints.len(),
                Seq::empty(),
            );
            match passed {
                Err(fault) => (Err(fault), m),
                Ok(exposed) => if exposed.len() != 0 {
                    (Err(Fault::Malformed), m)
                } else {
                    (Ok(()), Mind { k: k2, ..m1 })
                },
            }
        },
    }
}

} // verus!
