//! Binding types to patterns, and the other rules of inference that do not walk the
//! program.
use vstd::prelude::*;
use crate::ast::{LiteralKind, NodeKind, Program};
use crate::cache::ModuleCache;
use crate::constraints::make_tuple_type;
use crate::error::{Fault, UnificationError};
use crate::generalize::generalize;
use crate::infer_cache::{add_required, set_definition_type};
use crate::infer_model::{captures_of, shape_of, Capture, Shape, Value};
use crate::infer_notes::same_shape;
use crate::infer_rules::{
    bind_elements, bind_pattern, captured_types, environment_type, generalizable, is_pair, unit,
    Mind, Outline,
};
use crate::infer_state::{fresh_types, report, unify_types};
use crate::traits::{required_of, RequiredTrait};
use crate::types::{
    clone_types, terms_of, AstId, DefinitionInfoId, FunctionType, GeneralizedType, PrimitiveType,
    Term, Type, TypeInfoId, PAIR_TYPE,
};

verus! {

impl Program {
    /// The program as inference reads it.
    pub open spec fn outline(&self) -> Outline {
        Outline { shapes: self.shapes(), places: self.locations() }
    }
}

/// What inference changes, as the program and the cache hold it.
pub open spec fn mind(program: &Program, cache: &ModuleCache) -> Mind {
    Mind { k: cache.knowledge(), notes: program.notes() }
}

/// Does `result` report the outcome, with `after` the mind of the outcome?
pub open spec fn leaves(result: Result<(), Fault>, expected: (Result<(), Fault>, Mind), after: Mind) -> bool {
    match expected.0 {
        Ok(()) => result is Ok && after == expected.1,
        Err(fault) => result == Err::<(), Fault>(fault),
    }
}

/// What a pattern may be, with what binding a type to it needs of it.
pub enum PatternKind {
    UnitLiteral,
    OtherLiteral,
    Variable(Option<DefinitionInfoId>),
    Annotation(AstId),
    Pair(AstId, Vec<AstId>),
    Other,
}

/// What the pattern is.
pub fn pattern_kind(program: &Program, pattern: AstId) -> (kind: PatternKind)
    requires
        program.has(pattern),
    ensures
        match program.outline().shapes[pattern.0 as int] {
            Shape::Literal(Value::Unit) => kind is UnitLiteral,
            Shape::Literal(_) => kind is OtherLiteral,
            Shape::Variable(_, definition, _, _) => kind == PatternKind::Variable(definition),
            Shape::TypeAnnotation(lhs, _) => kind == PatternKind::Annotation(lhs),
            Shape::FunctionCall(function, args) => if is_pair(program.outline(), function) {
                kind matches PatternKind::Pair(f, found) && f == function && found@ == args
            } else {
                kind is Other
            },
            _ => kind is Other,
        },
{
    match &program.nodes[pattern.0].kind {
        NodeKind::Literal(LiteralKind::Unit) => PatternKind::UnitLiteral,
        NodeKind::Literal(_) => PatternKind::OtherLiteral,
        NodeKind::Variable(variable) => PatternKind::Variable(variable.definition),
        NodeKind::TypeAnnotation(lhs, _) => PatternKind::Annotation(*lhs),
        NodeKind::FunctionCall(function, args) => {
            proof {
                if function.0 < program.nodes@.len() {
                    assert(program.outline().shapes[function.0 as int] == shape_of(
                        program.nodes@[function.0 as int].kind,
                    ));
                }
            }
            if program.is_pair_constructor(*function) {
                let copied = args.clone();
                assert(copied@ =~= args@);
                PatternKind::Pair(*function, copied)
            } else {
                PatternKind::Other
            }
        },
        _ => PatternKind::Other,
    }
}

/// Binds the type to an irrefutable pattern, and checks on the way that the pattern is
/// one. With `should_generalize`, each variable of the pattern gets the type generalised.
/// The required traits are added to those that the definition of each variable requires.
pub fn bind_irrefutable_pattern(
    program: &mut Program,
    pattern: AstId,
    typ: &Type,
    required_traits: &Vec<RequiredTrait>,
    should_generalize: bool,
    cache: &mut ModuleCache,
    fuel: u32,
) -> (result: Result<(), Fault>)
    ensures
        same_shape(*final(program), *old(program)),
        leaves(
            result,
            bind_pattern(
                old(program).outline(),
                mind(old(program), old(cache)),
                pattern,
                typ@,
                required_of(required_traits@),
                should_generalize,
                fuel as nat,
            ),
            mind(final(program), final(cache)),
        ),
    decreases fuel, 0nat,
{
    if fuel == 0 {
        return Err(Fault::RecursionLimit);
    }
    if pattern.0 >= program.nodes.len() {
        return Err(Fault::Malformed);
    }
    let location = program.nodes[pattern.0].location;
    match pattern_kind(program, pattern) {
        PatternKind::UnitLiteral => {
            let unit_type = Type::Primitive(PrimitiveType::UnitType);
            program.set_type(pattern, unit_type.clone());
            unify_types(typ, &unit_type, location, cache);
            Ok(())
        },
        PatternKind::OtherLiteral => {
            report(UnificationError::NotIrrefutable, location, cache);
            Ok(())
        },
        PatternKind::Variable(definition) => {
            let id = match definition {
                None => {
                    return Err(Fault::Malformed);
                },
                Some(id) => id,
            };
            if id.0 >= cache.definition_infos.len() {
                return Err(Fault::UnknownDefinition(id.0));
            }
            assert(cache.knowledge().definitions[id.0 as int] == cache.definition_infos@[id.0 as int]@);
            // The type may be set already, as for a definition of an impl. If it is, the
            // two are unified before the type is generalised.
            let existing = match &cache.definition_infos[id.0].typ {
                Some(GeneralizedType::MonoType(existing)) => Some(existing.clone()),
                Some(GeneralizedType::PolyType(_, _)) => {
                    return Err(Fault::Malformed);
                },
                None => None,
            };
            match existing {
                Some(existing) => {
                    unify_types(&existing, typ, location, cache);
                },
                None => {},
            }
            let scheme = if should_generalize {
                match generalize(typ, cache) {
                    Err(fault) => {
                        return Err(fault);
                    },
                    Ok(scheme) => scheme,
                }
            } else {
                GeneralizedType::MonoType(typ.clone())
            };
            assert(cache.definition_infos@.len() == cache.knowledge().definitions.len());
            add_required(cache, id, required_traits);
            program.set_type(pattern, scheme.remove_forall().clone());
            assert(cache.definition_infos@.len() == cache.knowledge().definitions.len());
            set_definition_type(cache, id, Some(scheme));
            Ok(())
        },
        PatternKind::Annotation(lhs) => {
            let annotation = match &program.nodes[pattern.0].typ {
                None => {
                    return Err(Fault::Malformed);
                },
                Some(annotation) => annotation.clone(),
            };
            unify_types(typ, &annotation, location, cache);
            bind_irrefutable_pattern(program, lhs, typ, required_traits, should_generalize, cache, fuel - 1)
        },
        PatternKind::Pair(function, args) => {
            let types = fresh_types(args.len(), cache);
            let pair = Type::UserDefined(TypeInfoId(PAIR_TYPE));
            assert(pair@ == Term::UserDefined(TypeInfoId(PAIR_TYPE)));
            let pair_type = Type::TypeApplication(Box::new(pair), clone_types(&types));
            assert(pair_type@ == Term::TypeApplication(
                Box::new(Term::UserDefined(TypeInfoId(PAIR_TYPE))),
                terms_of(types@),
            ));
            unify_types(typ, &pair_type, location, cache);
            let unit_type = Type::Primitive(PrimitiveType::UnitType);
            assert(unit_type@ == unit());
            let function_type = Type::Function(
                FunctionType {
                    parameters: clone_types(&types),
                    return_type: Box::new(pair_type.clone()),
                    environment: Box::new(unit_type),
                    is_varargs: false,
                },
            );
            assert(function_type@ == Term::Function(
                terms_of(types@),
                Box::new(pair_type@),
                Box::new(unit()),
                false,
            ));
            program.set_type(function, function_type);
            program.set_type(pattern, pair_type);
            bind_pattern_elements(program, &args, &types, 0, required_traits, should_generalize, cache, fuel - 1)
        },
        PatternKind::Other => {
            report(UnificationError::InvalidPattern, location, cache);
            Ok(())
        },
    }
}

/// Binds each of the types to the pattern in its position, from position `at` on.
pub fn bind_pattern_elements(
    program: &mut Program,
    patterns: &Vec<AstId>,
    types: &Vec<Type>,
    at: usize,
    required_traits: &Vec<RequiredTrait>,
    should_generalize: bool,
    cache: &mut ModuleCache,
    fuel: u32,
) -> (result: Result<(), Fault>)
    ensures
        same_shape(*final(program), *old(program)),
        leaves(
            result,
            bind_elements(
                old(program).outline(),
                mind(old(program), old(cache)),
                patterns@,
                terms_of(types@),
                at as nat,
                required_of(required_traits@),
                should_generalize,
                fuel as nat,
            ),
            mind(final(program), final(cache)),
        ),
    decreases fuel, 1nat + patterns@.len() - at,
{
    if at >= patterns.len() || at >= types.len() {
        return Ok(());
    }
    assert(terms_of(types@)[at as int] == types@[at as int]@);
    match bind_irrefutable_pattern(
        program,
        patterns[at],
        &types[at],
        required_traits,
        should_generalize,
        cache,
        fuel,
    ) {
        Err(fault) => Err(fault),
        Ok(()) => bind_pattern_elements(
            program,
            patterns,
            types,
            at + 1,
            required_traits,
            should_generalize,
            cache,
            fuel,
        ),
    }
}

/// May the definition of what the node is be generalised?
pub fn should_generalize(program: &Program, expr: AstId) -> (general: bool)
    ensures
        general == generalizable(program.outline(), expr),
{
    match program.get(expr) {
        None => false,
        Some(node) => match &node.kind {
            NodeKind::Variable(_) => true,
            NodeKind::Lambda(_, _, environment) => environment.len() == 0,
            _ => false,
        },
    }
}

/// The types of the definitions that stand inside a lambda for the variables it
/// captures.
#[verifier::loop_isolation(false)]
pub fn captured_definition_types(program: &Program, id: AstId, cache: &ModuleCache) -> (result: Result<
    Vec<Type>,
    Fault,
>)
    requires
        program.has(id),
        program.node(id).kind is Lambda,
    ensures
        ({
            let captures = program.outline().shapes[id.0 as int]->Lambda_2;
            match captured_types(cache.knowledge(), captures, captures.len()) {
                Err(fault) => result matches Err(f) && f == fault,
                Ok(types) => result matches Ok(found) && terms_of(found@) == types,
            }
        }),
{
    let mut types: Vec<Type> = Vec::new();
    assert(program.outline().shapes[id.0 as int] == shape_of(program.nodes@[id.0 as int].kind));
    match &program.nodes[id.0].kind {
        NodeKind::Lambda(_, _, environment) => {
            let ghost captures = captures_of(environment@);
            let mut i: usize = 0;
            assert(terms_of(types@) =~= Seq::<Term>::empty());
            while i < environment.len()
                invariant
                    i <= environment.len(),
                    captures == captures_of(environment@),
                    captured_types(cache.knowledge(), captures, i as nat) == Ok::<Seq<Term>, Fault>(
                        terms_of(types@),
                    ),
                decreases environment.len() - i,
            {
                let inner = environment[i].inner;
                assert(captures[i as int].2 == inner);
                proof {
                    lemma_captured_fails(cache.knowledge(), captures, (i + 1) as nat, captures.len());
                }
                if inner.0 >= cache.definition_infos.len() {
                    return Err(Fault::UnknownDefinition(inner.0));
                }
                assert(cache.knowledge().definitions[inner.0 as int] == cache.definition_infos@[inner.0 as int]@);
                match &cache.definition_infos[inner.0].typ {
                    Some(GeneralizedType::MonoType(t)) => {
                        let copy = t.clone();
                        proof {
                            crate::types::lemma_terms_of_push(types@, copy);
                        }
                        types.push(copy);
                    },
                    _ => {
                        return Err(Fault::Malformed);
                    },
                }
                i += 1;
            }
        },
        _ => {},
    }
    Ok(types)
}

proof fn lemma_captured_fails(k: crate::infer_model::Knowledge, captures: Seq<Capture>, n: nat, m: nat)
    requires
        n <= m <= captures.len(),
    ensures
        captured_types(k, captures, n) is Err ==> captured_types(k, captures, m) == captured_types(k, captures, n),
    decreases m,
{
    if n < m {
        lemma_captured_fails(k, captures, n, (m - 1) as nat);
    }
}

/// The type of the environment of the lambda.
pub fn infer_closure_environment(program: &Program, id: AstId, cache: &ModuleCache) -> (result: Result<Type, Fault>)
    requires
        program.has(id),
        program.node(id).kind is Lambda,
    ensures
        crate::substitute::yields(
            result,
            environment_type(cache.knowledge(), program.outline().shapes[id.0 as int]->Lambda_2),
        ),
{
    assert(program.outline().shapes[id.0 as int] == shape_of(program.nodes@[id.0 as int].kind));
    let mut environment = match captured_definition_types(program, id, cache) {
        Err(fault) => {
            return Err(fault);
        },
        Ok(environment) => environment,
    };
    if environment.len() == 0 {
        // A function that captures nothing has the unit type for its environment
        Ok(Type::Primitive(PrimitiveType::UnitType))
    } else {
        let end = Type::Primitive(PrimitiveType::UnitType);
        proof {
            crate::types::lemma_terms_of_push(environment@, end);
        }
        environment.push(end);
        Ok(make_tuple_type(environment))
    }
}

} // verus!
