//! The rules of inference that do not walk the program: the binding of a type to a
//! pattern, the uses of a definition, the types of literals, and the environment of a
//! closure.
use vstd::prelude::*;
use crate::constraints::{obligations, tuple_of};
use crate::error::{Fault, Location, Mismatch};
use crate::generalize::generalized;
use crate::infer_model::{Capture, DefinitionModel, Knowledge, Note, Shape, Value};
use crate::infer_state::{
    decimal, fresh, fresh_each, int_obligation, reported, unified, with_variable,
};
use crate::instantiate::instance_of;
use crate::traits::{Callsite, Constraint, Signature};
use crate::types::{
    AstId, DefinitionInfoId, ImplScopeId, IntegerKind, PrimitiveType, Scheme, Term, TypeInfoId,
    VariableId, PAIR_TYPE, STRING_TYPE,
};
use crate::unify::RECURSION_LIMIT;

verus! {

/// The program as inference reads it: the shapes and the places of the nodes.
pub struct Outline {
    pub shapes: Seq<Shape>,
    pub places: Seq<Location>,
}

/// What inference changes: what the cache knows, and what is noted in the nodes.
pub struct Mind {
    pub k: Knowledge,
    pub notes: Seq<Note>,
}

/// The unit type.
pub open spec fn unit() -> Term {
    Term::Primitive(PrimitiveType::UnitType)
}

/// The notes with the type of the node noted.
pub open spec fn noted(notes: Seq<Note>, id: AstId, typ: Term) -> Seq<Note> {
    notes.update(id.0 as int, Note { typ: Some(typ), ..notes[id.0 as int] })
}

/// What is known once the definition has the type.
pub open spec fn with_type(k: Knowledge, id: DefinitionInfoId, typ: Option<Scheme>) -> Knowledge {
    Knowledge {
        definitions: k.definitions.update(id.0 as int, DefinitionModel { typ, ..k.definitions[id.0 as int] }),
        ..k
    }
}

/// What is known once the definition requires the traits as well.
pub open spec fn with_required(k: Knowledge, id: DefinitionInfoId, more: Seq<(Signature, Callsite)>) -> Knowledge {
    Knowledge {
        definitions: k.definitions.update(
            id.0 as int,
            DefinitionModel {
                required_traits: k.definitions[id.0 as int].required_traits + more,
                ..k.definitions[id.0 as int]
            },
        ),
        ..k
    }
}

/// Is the node a use of the constructor of pairs?
pub open spec fn is_pair(o: Outline, function: AstId) -> bool {
    function.0 < o.shapes.len() && (o.shapes[function.0 as int] matches Shape::Variable(name, _, _, _)
        && crate::ast::is_comma(name))
}

/// The place of the node.
pub open spec fn place(o: Outline, id: AstId) -> Location {
    o.places[id.0 as int]
}

/// What becomes of the mind when the type is bound to the pattern. A variable gets the
/// type, generalised where `generalize` is set, and the required traits; where it has a
/// type already, the two are unified first. A pair pattern is taken apart. The unit
/// literal says that the type is unit. Anything else is reported.
pub open spec fn bind_pattern(
    o: Outline,
    m: Mind,
    pattern: AstId,
    typ: Term,
    required: Seq<(Signature, Callsite)>,
    generalize: bool,
    fuel: nat,
) -> (Result<(), Fault>, Mind)
    decreases fuel, 0nat,
{
    if fuel == 0 {
        (Err(Fault::RecursionLimit), m)
    } else if pattern.0 >= o.shapes.len() || m.notes.len() != o.shapes.len() || o.places.len() != o.shapes.len() {
        (Err(Fault::Malformed), m)
    } else {
        let here = place(o, pattern);
        match o.shapes[pattern.0 as int] {
            Shape::Literal(Value::Unit) => (
                Ok(()),
                Mind { k: unified(m.k, typ, unit(), here), notes: noted(m.notes, pattern, unit()) },
            ),
            Shape::Literal(_) => (Ok(()), Mind { k: reported(m.k, Mismatch::NotIrrefutable, here), ..m }),
            Shape::Variable(_, definition, _, _) => match definition {
                None => (Err(Fault::Malformed), m),
                Some(id) => if id.0 >= m.k.definitions.len() {
                    (Err(Fault::UnknownDefinition(id.0)), m)
                } else {
                    match m.k.definitions[id.0 as int].typ {
                        Some(Scheme::PolyType(_, _)) => (Err(Fault::Malformed), m),
                        existing => {
                            let k1 = match existing {
                                Some(Scheme::MonoType(t)) => unified(m.k, t, typ, here),
                                _ => m.k,
                            };
                            let scheme = if generalize {
                                generalized(typ, k1.store, k1.level, RECURSION_LIMIT as nat)
                            } else {
                                Ok(Scheme::MonoType(typ))
                            };
                            match scheme {
                                Err(fault) => (Err(fault), m),
                                Ok(found) => (
                                    Ok(()),
                                    Mind {
                                        k: with_type(with_required(k1, id, required), id, Some(found)),
                                        notes: noted(m.notes, pattern, typ),
                                    },
                                ),
                            }
                        },
                    }
                },
            },
            Shape::TypeAnnotation(lhs, _) => match m.notes[pattern.0 as int].typ {
                None => (Err(Fault::Malformed), m),
                Some(annotation) => bind_pattern(
                    o,
                    Mind { k: unified(m.k, typ, annotation, here), ..m },
                    lhs,
                    typ,
                    required,
                    generalize,
                    (fuel - 1) as nat,
                ),
            },
            Shape::FunctionCall(function, args) => if is_pair(o, function) {
                let (made, k1) = fresh_each(m.k, args.len());
                let pair_type = Term::TypeApplication(Box::new(Term::UserDefined(TypeInfoId(PAIR_TYPE))), made);
                let k2 = unified(k1, typ, pair_type, here);
                let function_type = Term::Function(made, Box::new(pair_type), Box::new(unit()), false);
                bind_elements(
                    o,
                    Mind { k: k2, notes: noted(noted(m.notes, function, function_type), pattern, pair_type) },
                    args,
                    made,
                    0,
                    required,
                    generalize,
                    (fuel - 1) as nat,
                )
            } else {
                (Ok(()), Mind { k: reported(m.k, Mismatch::InvalidPattern, here), ..m })
            },
            _ => (Ok(()), Mind { k: reported(m.k, Mismatch::InvalidPattern, here), ..m }),
        }
    }
}

/// What becomes of the mind when each of the types is bound to the pattern in its
/// position, from position `at` on.
pub open spec fn bind_elements(
    o: Outline,
    m: Mind,
    patterns: Seq<AstId>,
    types: Seq<Term>,
    at: nat,
    required: Seq<(Signature, Callsite)>,
    generalize: bool,
    fuel: nat,
) -> (Result<(), Fault>, Mind)
    decreases fuel, 1nat + patterns.len() - at,
{
    if at >= patterns.len() || at >= types.len() {
        (Ok(()), m)
    } else {
        let (first, m1) = bind_pattern(o, m, patterns[at as int], types[at as int], required, generalize, fuel);
        match first {
            Err(fault) => (Err(fault), m),
            Ok(()) => bind_elements(o, m1, patterns, types, at + 1, required, generalize, fuel),
        }
    }
}

/// The obligations that a use of the definition brings, and what is known once their ids
/// are taken.
pub open spec fn uses(k: Knowledge, definition: DefinitionInfoId, scope: ImplScopeId, callsite: VariableId) -> (
    Result<Seq<Constraint>, Fault>,
    Knowledge,
) {
    if definition.0 >= k.definitions.len() {
        (Err(Fault::UnknownDefinition(definition.0)), k)
    } else {
        let info = k.definitions[definition.0 as int];
        if k.next_constraint + info.required_traits.len() >= u32::MAX {
            (Err(Fault::OutOfIds), k)
        } else {
            let found = obligations(info.required_traits, info.trait_info, scope, callsite, k.next_constraint);
            (Ok(found), Knowledge { next_constraint: (k.next_constraint + found.len()) as u32, ..k })
        }
    }
}

/// The type of a literal and the obligation it brings. An integer without a suffix gets a
/// new type variable, which has to be an integer type.
pub open spec fn infer_literal(o: Outline, m: Mind, id: AstId, value: Value) -> (
    Result<(Term, Seq<Constraint>), Fault>,
    Mind,
) {
    match value {
        Value::Integer(n) => match m.notes[id.0 as int].kind {
            None => (Err(Fault::Malformed), m),
            Some(IntegerKind::Unknown) => {
                let int_type = m.k.store.len() as usize;
                let k1 = fresh(m.k).1;
                let (callsite, k2) = with_variable(k1, decimal(n as nat), place(o, id));
                let (constraint, k3) = int_obligation(k2, int_type, callsite);
                match constraint {
                    Err(fault) => (Err(fault), m),
                    Ok(c) => (
                        Ok((Term::TypeVariable(int_type), seq![c])),
                        Mind {
                            k: k3,
                            notes: m.notes.update(
                                id.0 as int,
                                Note { kind: Some(IntegerKind::Inferred(int_type)), ..m.notes[id.0 as int] },
                            ),
                        },
                    ),
                }
            },
            Some(kind) => (Ok((Term::Primitive(PrimitiveType::IntegerType(kind)), Seq::empty())), m),
        },
        Value::Float(_) => (Ok((Term::Primitive(PrimitiveType::FloatType), Seq::empty())), m),
        Value::String(_) => (Ok((Term::UserDefined(TypeInfoId(STRING_TYPE)), Seq::empty())), m),
        Value::Char(_) => (Ok((Term::Primitive(PrimitiveType::CharType), Seq::empty())), m),
        Value::Bool(_) => (Ok((Term::Primitive(PrimitiveType::BooleanType), Seq::empty())), m),
        Value::Unit => (Ok((unit(), Seq::empty())), m),
    }
}

/// What becomes of the mind when the captured variables of the lambda `id` are bound, from
/// position `at` on: the definition inside the lambda gets an instance of the type that
/// the definition outside has, if it has one, and the instantiation is noted.
pub open spec fn bind_captures(m: Mind, id: AstId, captures: Seq<Capture>, at: nat) -> (Result<(), Fault>, Mind)
    decreases captures.len() - at,
{
    if at >= captures.len() {
        (Ok(()), m)
    } else {
        let (outer, _, inner) = captures[at as int];
        if outer.0 >= m.k.definitions.len() || inner.0 >= m.k.definitions.len() {
            (Err(Fault::UnknownDefinition(outer.0)), m)
        } else {
            match m.k.definitions[outer.0 as int].typ {
                None => bind_captures(m, id, captures, at + 1),
                Some(scheme) => {
                    let (instance, store) = instance_of(
                        scheme,
                        Seq::empty(),
                        m.k.store,
                        m.k.level,
                        RECURSION_LIMIT as nat,
                    );
                    match instance {
                        Err(fault) => (Err(fault), m),
                        Ok((typ, _, bindings)) => if m.k.definitions[inner.0 as int].typ is Some {
                            (Err(Fault::Malformed), m)
                        } else {
                            bind_captures(
                                Mind {
                                    k: with_type(
                                        Knowledge { store, ..m.k },
                                        inner,
                                        Some(Scheme::MonoType(typ)),
                                    ),
                                    notes: m.notes.update(
                                        id.0 as int,
                                        Note {
                                            captured: m.notes[id.0 as int].captured.update(at as int, bindings),
                                            ..m.notes[id.0 as int]
                                        },
                                    ),
                                },
                                id,
                                captures,
                                at + 1,
                            )
                        },
                    }
                },
            }
        }
    }
}

/// The types of the definitions that stand inside a lambda for the variables it
/// captures, among the first `n`.
pub open spec fn captured_types(k: Knowledge, captures: Seq<Capture>, n: nat) -> Result<Seq<Term>, Fault>
    decreases n,
{
    if n == 0 || n > captures.len() {
        Ok(Seq::empty())
    } else {
        match captured_types(k, captures, (n - 1) as nat) {
            Err(fault) => Err(fault),
            Ok(before) => {
                let inner = captures[n - 1].2;
                if inner.0 >= k.definitions.len() {
                    Err(Fault::UnknownDefinition(inner.0))
                } else {
                    match k.definitions[inner.0 as int].typ {
                        Some(Scheme::MonoType(t)) => Ok(before.push(t)),
                        _ => Err(Fault::Malformed),
                    }
                }
            },
        }
    }
}

/// The type of the environment of a lambda: unit where it captures nothing, and else the
/// tuple of the types of what it captures, in order, ended by unit, so that the
/// environment of one captured variable is a tuple as well.
pub open spec fn environment_type(k: Knowledge, captures: Seq<Capture>) -> Result<Term, Fault> {
    match captured_types(k, captures, captures.len()) {
        Err(fault) => Err(fault),
        Ok(types) => if types.len() == 0 {
            Ok(unit())
        } else {
            Ok(tuple_of(types.push(unit())))
        },
    }
}

/// Can the node be assigned to? A variable can where its definition is mutable; an
/// annotated node where the annotation says so or the node itself can; a field where what
/// it is a field of can; and what an operation of the compiler gives, which is reached
/// through a pointer. Nothing else can.
pub open spec fn mutable_place(o: Outline, k: Knowledge, id: AstId, fuel: nat) -> bool
    decreases fuel,
{
    if fuel == 0 || id.0 >= o.shapes.len() {
        false
    } else {
        match o.shapes[id.0 as int] {
            Shape::Variable(_, definition, _, _) => definition matches Some(d) && d.0 < k.definitions.len()
                && k.definitions[d.0 as int].mutable,
            Shape::TypeAnnotation(lhs, mutable) => mutable || mutable_place(o, k, lhs, (fuel - 1) as nat),
            Shape::MemberAccess(lhs, _) => mutable_place(o, k, lhs, (fuel - 1) as nat),
            Shape::FunctionCall(function, _) => function.0 < o.shapes.len() && (o.shapes[function.0 as int] matches Shape::Variable(
                _,
                Some(d),
                _,
                _,
            ) && d.0 == crate::ast::BUILTIN_ID),
            _ => false,
        }
    }
}

/// What is known once an assignment was looked at: that its left-hand side cannot be
/// assigned to is reported at the assignment.
pub open spec fn assigned(o: Outline, k: Knowledge, assignment: AstId, lhs: AstId) -> Knowledge {
    if mutable_place(o, k, lhs, crate::unify::RECURSION_LIMIT as nat) {
        k
    } else {
        crate::infer_state::reported(k, crate::error::Mismatch::NotMutable, place(o, assignment))
    }
}

/// May the definition of what the node is be generalised: is it a variable, or a lambda
/// that captures nothing? To generalise more would be to evaluate anew at each use what
/// the programmer wrote once.
pub open spec fn generalizable(o: Outline, expr: AstId) -> bool {
    expr.0 < o.shapes.len() && (match o.shapes[expr.0 as int] {
        Shape::Variable(_, _, _, _) => true,
        Shape::Lambda(_, _, captures) => captures.len() == 0,
        _ => false,
    })
}

} // verus!
