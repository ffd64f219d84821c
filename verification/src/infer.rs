//! Type inference: a walk over the program that fills the type slot of every node it
//! reaches, gathers the obligations that arise, and infers the definition of a variable
//! when it first meets a use of it.
use vstd::prelude::*;
use vstd::string::StringExecFns;
use crate::ast::Program;
use crate::cache::{DefinitionKind, ModuleCache};
use crate::error::Fault;
use crate::infer_cache::{set_definition_type, use_definition};
use crate::infer_definitions::{infer_declarations_node, infer_definition};
use crate::infer_impls::infer_trait_impl;
use crate::infer_statements::{
    infer_annotation_node, infer_assignment_node, infer_member_access_node, infer_return_node,
    infer_sequence_node,
};
use crate::infer_model::shape_of;
use crate::infer_nodes::{
    bind_closure_environment, bind_lambda_parameters, finds, form_of, infer_literal_node, Form,
};
use crate::infer_patterns::{infer_closure_environment, mind};
use crate::infer_rules::Mind;
use crate::infer_state::{fresh_type, fresh_types, unify_types};
use crate::infer_walk::{
    infer, infer_branches, infer_call, infer_each, infer_if, infer_kind, infer_lambda, infer_match,
    infer_nested_definition, infer_variable,
};
use crate::resolve::lemma_knowledge_but_store;
use crate::traits::{constraints_of, Constraint, TraitConstraint};
use crate::types::{
    terms_of, AstId, DefinitionInfoId, FunctionType, GeneralizedType, ImplScopeId, PrimitiveType,
    Term, Type, VariableId,
};

verus! {

/// Does `result` hold the types and the obligations of the outcome, added to those given,
/// with `after` the mind of the outcome; or the fault of the outcome?
pub open spec fn gathers(
    result: Result<(), Fault>,
    types_before: Seq<Term>,
    types_after: Seq<Term>,
    traits_before: Seq<Constraint>,
    traits_after: Seq<Constraint>,
    expected: (Result<(Seq<Term>, Seq<Constraint>), Fault>, Mind),
    after: Mind,
) -> bool {
    match expected.0 {
        Ok((types, traits)) => result is Ok && types_after == types_before + types && traits_after == traits_before
            + traits && after == expected.1,
        Err(fault) => result == Err::<(), Fault>(fault),
    }
}

/// The model of a list of obligations grows with the list.
pub proof fn lemma_constraints_append(a: Seq<TraitConstraint>, b: Seq<TraitConstraint>)
    ensures
        constraints_of(a + b) == constraints_of(a) + constraints_of(b),
{
    assert(constraints_of(a + b) =~= constraints_of(a) + constraints_of(b));
}

/// Infers the type of the node, notes it in the node, and returns it with the obligations
/// that arose in the node.
pub fn infer_node(program: &mut Program, id: AstId, cache: &mut ModuleCache, fuel: u32) -> (result: Result<
    (Type, Vec<TraitConstraint>),
    Fault,
>)
    ensures
        final(program).outline() == old(program).outline(),
        finds(
            result,
            infer(old(program).outline(), mind(old(program), old(cache)), id, fuel as nat),
            mind(final(program), final(cache)),
        ),
    decreases fuel, 0nat, 0nat,
{
    reveal(infer);
    reveal(infer_kind);
    if fuel == 0 {
        return Err(Fault::RecursionLimit);
    }
    if id.0 >= program.nodes.len() {
        return Err(Fault::Malformed);
    }
    let (typ, traits) = match infer_impl(program, id, cache, fuel - 1) {
        Err(fault) => {
            return Err(fault);
        },
        Ok(found) => found,
    };
    assert(program.shapes().len() == old(program).shapes().len());
    program.set_type(id, typ.clone());
    Ok((typ, traits))
}

/// Infers the types of the nodes from position `at` on, each in turn, and adds them and
/// the obligations that arose to those given.
pub fn infer_nodes(
    program: &mut Program,
    ids: &Vec<AstId>,
    at: usize,
    types: &mut Vec<Type>,
    traits: &mut Vec<TraitConstraint>,
    cache: &mut ModuleCache,
    fuel: u32,
) -> (result: Result<(), Fault>)
    ensures
        final(program).outline() == old(program).outline(),
        gathers(
            result,
            terms_of(old(types)@),
            terms_of(final(types)@),
            constraints_of(old(traits)@),
            constraints_of(final(traits)@),
            infer_each(old(program).outline(), mind(old(program), old(cache)), ids@, at as nat, fuel as nat),
            mind(final(program), final(cache)),
        ),
    decreases fuel, 7nat, ids@.len() - at,
{
    reveal(infer_each);
    reveal(infer);
    if at >= ids.len() {
        assert(terms_of(types@) + Seq::<Term>::empty() =~= terms_of(types@));
        assert(constraints_of(traits@) + Seq::<Constraint>::empty() =~= constraints_of(traits@));
        return Ok(());
    }
    let (typ, mut more) = match infer_node(program, ids[at], cache, fuel) {
        Err(fault) => {
            return Err(fault);
        },
        Ok(found) => found,
    };
    let ghost types_before = terms_of(types@);
    let ghost traits_before = constraints_of(traits@);
    let ghost first = typ@;
    let ghost first_traits = constraints_of(more@);
    proof {
        crate::types::lemma_terms_of_push(types@, typ);
        lemma_constraints_append(traits@, more@);
    }
    types.push(typ);
    traits.append(&mut more);
    let ghost m1 = mind(program, cache);
    match infer_nodes(program, ids, at + 1, types, traits, cache, fuel) {
        Err(fault) => Err(fault),
        Ok(()) => {
            proof {
                let rest = infer_each(old(program).outline(), m1, ids@, (at + 1) as nat, fuel as nat).0->Ok_0;
                assert(types_before.push(first) + rest.0 =~= types_before + (seq![first] + rest.0));
                assert((traits_before + first_traits) + rest.1 =~= traits_before + (first_traits + rest.1));
            }
            Ok(())
        },
    }
}

/// Infers the type of the node by the rule for its kind.
#[verifier::spinoff_prover]
#[verifier::rlimit(40)]
pub fn infer_impl(program: &mut Program, id: AstId, cache: &mut ModuleCache, fuel: u32) -> (result: Result<
    (Type, Vec<TraitConstraint>),
    Fault,
>)
    requires
        old(program).has(id),
    ensures
        final(program).outline() == old(program).outline(),
        finds(
            result,
            infer_kind(old(program).outline(), mind(old(program), old(cache)), id, fuel as nat),
            mind(final(program), final(cache)),
        ),
    decreases fuel, 9nat, 0nat,
{
    reveal(infer_kind);
    reveal(infer);
    reveal(infer_each);
    reveal(infer_variable);
    reveal(infer_lambda);
    reveal(infer_call);
    reveal(crate::infer_walk::infer_definition);
    reveal(infer_if);
    reveal(infer_match);
    reveal(crate::infer_walk::infer_trait_impl);
    let none: Vec<TraitConstraint> = Vec::new();
    assert(constraints_of(none@) =~= Seq::<Constraint>::empty());
    match form_of(program, id) {
        Form::Literal => {
            assert(program.outline().shapes[id.0 as int] == shape_of(program.nodes@[id.0 as int].kind));
            infer_literal_node(program, id, cache)
        },
        Form::Variable(_, _, _) => infer_variable_node(program, id, cache, fuel),
        Form::Lambda(_, _) => infer_lambda_node(program, id, cache, fuel),
        Form::FunctionCall(_, _) => infer_call_node(program, id, cache, fuel),
        Form::Definition(_, _, _, _) => infer_definition(program, id, cache, fuel),
        Form::If(_, _, _) => infer_if_node(program, id, cache, fuel),
        Form::Match(_, _) => infer_match_node(program, id, cache, fuel),
        Form::TypeDefinition => Ok((Type::Primitive(PrimitiveType::UnitType), none)),
        Form::TypeAnnotation(_) => infer_annotation_node(program, id, cache, fuel),
        Form::Import => Ok((Type::Primitive(PrimitiveType::UnitType), none)),
        Form::Declarations(declarations, level) => infer_declarations_node(program, &declarations, level, cache),
        Form::TraitImpl(_, _, _, _) => infer_trait_impl(program, id, cache, fuel),
        Form::Return(_) => infer_return_node(program, id, cache, fuel),
        Form::Sequence(_) => infer_sequence_node(program, id, cache, fuel),
        Form::MemberAccess(_, _) => infer_member_access_node(program, id, cache, fuel),
        Form::Assignment(_, _) => infer_assignment_node(program, id, cache, fuel),
    }
}

/// Infers the type of a use of a variable: an instance of the type of its definition,
/// which is inferred first where the definition has none yet.
pub fn infer_variable_node(program: &mut Program, id: AstId, cache: &mut ModuleCache, fuel: u32) -> (result: Result<
    (Type, Vec<TraitConstraint>),
    Fault,
>)
    requires
        old(program).has(id),
        old(program).outline().shapes[id.0 as int] is Variable,
    ensures
        final(program).outline() == old(program).outline(),
        finds(
            result,
            infer_variable(old(program).outline(), mind(old(program), old(cache)), id, fuel as nat),
            mind(final(program), final(cache)),
        ),
    decreases fuel, 8nat, 0nat,
{
    reveal(infer_variable);
    reveal(infer_nested_definition);
    let (definition, occurrence, scope) = match form_of(program, id) {
        Form::Variable(Some(definition), Some(occurrence), Some(scope)) => (definition, occurrence, scope),
        _ => {
            return Err(Fault::Malformed);
        },
    };
    if definition.0 >= cache.definition_infos.len() {
        return Err(Fault::UnknownDefinition(definition.0));
    }
    assert(cache.knowledge().definitions[definition.0 as int] == cache.definition_infos@[definition.0 as int]@);
    // The type of the definition is looked up: it is inferred first if there is none yet.
    let known = match &cache.definition_infos[definition.0].typ {
        None => None,
        Some(scheme) => Some(scheme.clone()),
    };
    let (s, traits) = match known {
        Some(scheme) => {
            let constraints = match use_definition(definition, scope, occurrence, cache) {
                Err(fault) => {
                    return Err(fault);
                },
                Ok(constraints) => constraints,
            };
            (scheme, constraints)
        },
        None => {
            let (scheme, traits) = if cache.definition_infos[definition.0].definition.is_some() {
                match infer_nested_definition_node(program, definition, scope, occurrence, cache, fuel) {
                    Err(fault) => {
                        return Err(fault);
                    },
                    Ok(found) => found,
                }
            } else {
                let none: Vec<TraitConstraint> = Vec::new();
                assert(constraints_of(none@) =~= Seq::<Constraint>::empty());
                (GeneralizedType::MonoType(fresh_type(cache)), none)
            };
            assert(cache.definition_infos@.len() == cache.knowledge().definitions.len());
            if definition.0 >= cache.definition_infos.len() {
                return Err(Fault::UnknownDefinition(definition.0));
            }
            set_definition_type(cache, definition, Some(scheme.clone()));
            (scheme, traits)
        },
    };
    let ghost before = *cache;
    let (t, traits, mapping) = match s.instantiate(traits, cache) {
        Err(fault) => {
            return Err(fault);
        },
        Ok(instance) => instance,
    };
    proof {
        lemma_knowledge_but_store(&before, cache);
        assert(program.shapes().len() == old(program).shapes().len());
        assert(program.outline().shapes[id.0 as int] == shape_of(program.nodes@[id.0 as int].kind));
        assert(program.notes().len() == program.shapes().len());
    }
    program.set_mapping(id, mapping);
    Ok((t, traits))
}

/// Infers the type of a definition that a use reaches before inference has reached the
/// definition. The definition is given a new type variable for its type first, so that
/// it may use itself.
pub fn infer_nested_definition_node(
    program: &mut Program,
    definition: DefinitionInfoId,
    scope: ImplScopeId,
    callsite: VariableId,
    cache: &mut ModuleCache,
    fuel: u32,
) -> (result: Result<(GeneralizedType, Vec<TraitConstraint>), Fault>)
    requires
        definition.0 < old(cache).definition_infos@.len(),
    ensures
        final(program).outline() == old(program).outline(),
        ({
            let expected = infer_nested_definition(
                old(program).outline(),
                mind(old(program), old(cache)),
                definition,
                scope,
                callsite,
                fuel as nat,
            );
            match expected.0 {
                Ok((scheme, cs)) => result matches Ok((found, constraints)) && found@ == scheme && constraints_of(
                    constraints@,
                ) == cs && mind(final(program), final(cache)) == expected.1,
                Err(fault) => result matches Err(f) && f == fault,
            }
        }),
    decreases fuel, 6nat, 0nat,
{
    reveal(infer_nested_definition);
    reveal(infer);
    assert(cache.knowledge().definitions[definition.0 as int] == cache.definition_infos@[definition.0 as int]@);
    let kind = cache.definition_infos[definition.0].definition;
    let typevar = fresh_type(cache);
    assert(cache.definition_infos@.len() == cache.knowledge().definitions.len());
    set_definition_type(cache, definition, Some(GeneralizedType::MonoType(typevar)));
    let node = match kind {
        Some(DefinitionKind::Definition(node)) => Some(node),
        Some(DefinitionKind::TraitDefinition(node)) => Some(node),
        Some(DefinitionKind::Extern(node)) => Some(node),
        _ => None,
    };
    match node {
        Some(node) => {
            match infer_node(program, node, cache, fuel) {
                Err(fault) => {
                    return Err(fault);
                },
                Ok(_) => {},
            }
        },
        None => {},
    }
    let constraints = match use_definition(definition, scope, callsite, cache) {
        Err(fault) => {
            return Err(fault);
        },
        Ok(constraints) => constraints,
    };
    assert(cache.definition_infos@.len() == cache.knowledge().definitions.len());
    assert(cache.knowledge().definitions[definition.0 as int] == cache.definition_infos@[definition.0 as int]@);
    match &cache.definition_infos[definition.0].typ {
        None => Err(Fault::Malformed),
        Some(scheme) => Ok((scheme.clone(), constraints)),
    }
}

/// Infers the type of a lambda.
pub fn infer_lambda_node(program: &mut Program, id: AstId, cache: &mut ModuleCache, fuel: u32) -> (result: Result<
    (Type, Vec<TraitConstraint>),
    Fault,
>)
    requires
        old(program).has(id),
        old(program).outline().shapes[id.0 as int] is Lambda,
    ensures
        final(program).outline() == old(program).outline(),
        finds(
            result,
            infer_lambda(old(program).outline(), mind(old(program), old(cache)), id, fuel as nat),
            mind(final(program), final(cache)),
        ),
    decreases fuel, 8nat, 0nat,
{
    reveal(infer_lambda);
    reveal(infer);
    reveal(infer_kind);
    let location = program.nodes[id.0].location;
    assert(program.outline().places[id.0 as int] == location);
    assert(program.outline().shapes[id.0 as int] == shape_of(program.nodes@[id.0 as int].kind));
    let (args, body) = match form_of(program, id) {
        Form::Lambda(args, body) => (args, body),
        _ => {
            return Err(Fault::Malformed);
        },
    };
    // The parameters get new type variables for their types
    let parameter_types = fresh_types(args.len(), cache);
    match bind_lambda_parameters(program, &args, &parameter_types, 0, cache) {
        Err(fault) => {
            return Err(fault);
        },
        Ok(()) => {},
    }
    proof {
        assert(program.shapes().len() == old(program).shapes().len());
        assert(program.outline().shapes[id.0 as int] == shape_of(program.nodes@[id.0 as int].kind));
    }
    match bind_closure_environment(program, id, 0, cache) {
        Err(fault) => {
            return Err(fault);
        },
        Ok(()) => {},
    }
    proof {
        assert(program.shapes().len() == old(program).shapes().len());
        assert(program.notes().len() == program.shapes().len());
    }
    if body.0 >= program.nodes.len() {
        return Err(Fault::Malformed);
    }
    assert(program.notes()[body.0 as int] == crate::infer_model::note_of(program.nodes@[body.0 as int]));
    let given = match &program.nodes[body.0].typ {
        None => None,
        Some(typ) => Some(typ.clone()),
    };
    let (return_type, traits) = match given {
        Some(typ) => {
            // The programmer has given the return type
            if fuel == 0 {
                return Err(Fault::RecursionLimit);
            }
            let (found, traits) = match infer_impl(program, body, cache, fuel - 1) {
                Err(fault) => {
                    return Err(fault);
                },
                Ok(found) => found,
            };
            unify_types(&typ, &found, location, cache);
            (typ, traits)
        },
        None => match infer_node(program, body, cache, fuel) {
            Err(fault) => {
                return Err(fault);
            },
            Ok(found) => found,
        },
    };
    proof {
        assert(program.shapes().len() == old(program).shapes().len());
        assert(program.outline().shapes[id.0 as int] == shape_of(program.nodes@[id.0 as int].kind));
    }
    let environment = match infer_closure_environment(program, id, cache) {
        Err(fault) => {
            return Err(fault);
        },
        Ok(environment) => environment,
    };
    let typ = Type::Function(
        FunctionType {
            parameters: parameter_types,
            return_type: Box::new(return_type),
            environment: Box::new(environment),
            is_varargs: false,
        },
    );
    Ok((typ, traits))
}

/// Infers the type of a call.
pub fn infer_call_node(program: &mut Program, id: AstId, cache: &mut ModuleCache, fuel: u32) -> (result: Result<
    (Type, Vec<TraitConstraint>),
    Fault,
>)
    requires
        old(program).has(id),
        old(program).outline().shapes[id.0 as int] is FunctionCall,
    ensures
        final(program).outline() == old(program).outline(),
        finds(
            result,
            infer_call(old(program).outline(), mind(old(program), old(cache)), id, fuel as nat),
            mind(final(program), final(cache)),
        ),
    decreases fuel, 8nat, 0nat,
{
    reveal(infer_call);
    reveal(infer);
    reveal(infer_each);
    let location = program.nodes[id.0].location;
    assert(program.outline().places[id.0 as int] == location);
    let (function, args) = match form_of(program, id) {
        Form::FunctionCall(function, args) => (function, args),
        _ => {
            return Err(Fault::Malformed);
        },
    };
    let (f, mut traits) = match infer_node(program, function, cache, fuel) {
        Err(fault) => {
            return Err(fault);
        },
        Ok(found) => found,
    };
    let mut parameters: Vec<Type> = Vec::new();
    let mut arg_traits: Vec<TraitConstraint> = Vec::new();
    assert(terms_of(parameters@) =~= Seq::<Term>::empty());
    assert(constraints_of(arg_traits@) =~= Seq::<Constraint>::empty());
    let ghost m1 = mind(program, cache);
    match infer_nodes(program, &args, 0, &mut parameters, &mut arg_traits, cache, fuel) {
        Err(fault) => {
            return Err(fault);
        },
        Ok(()) => {},
    }
    proof {
        let found = infer_each(old(program).outline(), m1, args@, 0, fuel as nat).0->Ok_0;
        assert(Seq::<Term>::empty() + found.0 =~= found.0);
        assert(Seq::<Constraint>::empty() + found.1 =~= found.1);
        lemma_constraints_append(traits@, arg_traits@);
    }
    let return_type = fresh_type(cache);
    traits.append(&mut arg_traits);
    let environment = fresh_type(cache);
    let new_function = Type::Function(
        FunctionType {
            parameters,
            return_type: Box::new(return_type.clone()),
            environment: Box::new(environment),
            is_varargs: false,
        },
    );
    unify_types(&f, &new_function, location, cache);
    Ok((return_type, traits))
}

/// Infers the type of a conditional.
pub fn infer_if_node(program: &mut Program, id: AstId, cache: &mut ModuleCache, fuel: u32) -> (result: Result<
    (Type, Vec<TraitConstraint>),
    Fault,
>)
    requires
        old(program).has(id),
        old(program).outline().shapes[id.0 as int] is If,
    ensures
        final(program).outline() == old(program).outline(),
        finds(
            result,
            infer_if(old(program).outline(), mind(old(program), old(cache)), id, fuel as nat),
            mind(final(program), final(cache)),
        ),
    decreases fuel, 8nat, 0nat,
{
    reveal(infer_if);
    reveal(infer);
    let location = program.nodes[id.0].location;
    assert(program.outline().places[id.0 as int] == location);
    let (condition, then_branch, otherwise) = match form_of(program, id) {
        Form::If(condition, then_branch, otherwise) => (condition, then_branch, otherwise),
        _ => {
            return Err(Fault::Malformed);
        },
    };
    let (condition_type, mut traits) = match infer_node(program, condition, cache, fuel) {
        Err(fault) => {
            return Err(fault);
        },
        Ok(found) => found,
    };
    proof {
        reveal(infer);
        assert(program.shapes().len() == old(program).shapes().len());
    }
    assert(condition.0 < program.nodes@.len()) by {
        reveal(infer);
    }
    let condition_location = program.nodes[condition.0].location;
    assert(program.outline().places[condition.0 as int] == condition_location);
    let bool_type = Type::Primitive(PrimitiveType::BooleanType);
    unify_types(&condition_type, &bool_type, condition_location, cache);
    let (then_type, mut then_traits) = match infer_node(program, then_branch, cache, fuel) {
        Err(fault) => {
            return Err(fault);
        },
        Ok(found) => found,
    };
    proof {
        lemma_constraints_append(traits@, then_traits@);
    }
    traits.append(&mut then_traits);
    match otherwise {
        Some(branch) => {
            let (otherwise_type, mut otherwise_traits) = match infer_node(program, branch, cache, fuel) {
                Err(fault) => {
                    return Err(fault);
                },
                Ok(found) => found,
            };
            proof {
                lemma_constraints_append(traits@, otherwise_traits@);
            }
            traits.append(&mut otherwise_traits);
            unify_types(&then_type, &otherwise_type, location, cache);
            Ok((then_type, traits))
        },
        None => Ok((Type::Primitive(PrimitiveType::UnitType), traits)),
    }
}

/// Infers the branches of a match from position `at` on.
pub fn infer_match_branches(
    program: &mut Program,
    branches: &Vec<(AstId, AstId)>,
    at: usize,
    scrutinee: &Type,
    return_type: &Type,
    traits: &mut Vec<TraitConstraint>,
    cache: &mut ModuleCache,
    fuel: u32,
) -> (result: Result<(), Fault>)
    ensures
        final(program).outline() == old(program).outline(),
        ({
            let expected = infer_branches(
                old(program).outline(),
                mind(old(program), old(cache)),
                branches@,
                at as nat,
                scrutinee@,
                return_type@,
                fuel as nat,
            );
            match expected.0 {
                Ok(more) => result is Ok && constraints_of(final(traits)@) == constraints_of(old(traits)@) + more
                    && mind(final(program), final(cache)) == expected.1,
                Err(fault) => result == Err::<(), Fault>(fault),
            }
        }),
    decreases fuel, 7nat, branches@.len() - at,
{
    reveal(infer_branches);
    reveal(infer);
    if at >= branches.len() {
        assert(constraints_of(traits@) + Seq::<Constraint>::empty() =~= constraints_of(traits@));
        return Ok(());
    }
    let (pattern, body) = branches[at];
    let ghost before = constraints_of(traits@);
    let (pattern_type, mut pattern_traits) = match infer_node(program, pattern, cache, fuel) {
        Err(fault) => {
            return Err(fault);
        },
        Ok(found) => found,
    };
    let ghost first = constraints_of(pattern_traits@);
    let (body_type, mut body_traits) = match infer_node(program, body, cache, fuel) {
        Err(fault) => {
            return Err(fault);
        },
        Ok(found) => found,
    };
    let ghost second = constraints_of(body_traits@);
    proof {
        assert(program.shapes().len() == old(program).shapes().len());
    }
    let pattern_location = program.nodes[pattern.0].location;
    let body_location = program.nodes[body.0].location;
    assert(program.outline().places[pattern.0 as int] == pattern_location);
    assert(program.outline().places[body.0 as int] == body_location);
    unify_types(scrutinee, &pattern_type, pattern_location, cache);
    unify_types(return_type, &body_type, body_location, cache);
    proof {
        lemma_constraints_append(traits@, pattern_traits@);
    }
    traits.append(&mut pattern_traits);
    proof {
        lemma_constraints_append(traits@, body_traits@);
    }
    traits.append(&mut body_traits);
    let ghost m1 = mind(program, cache);
    match infer_match_branches(program, branches, at + 1, scrutinee, return_type, traits, cache, fuel) {
        Err(fault) => Err(fault),
        Ok(()) => {
            proof {
                let last = infer_branches(
                    old(program).outline(),
                    m1,
                    branches@,
                    (at + 1) as nat,
                    scrutinee@,
                    return_type@,
                    fuel as nat,
                ).0->Ok_0;
                assert(((before + first) + second) + last =~= before + (first + second + last));
            }
            Ok(())
        },
    }
}

/// Infers the type of a match.
pub fn infer_match_node(program: &mut Program, id: AstId, cache: &mut ModuleCache, fuel: u32) -> (result: Result<
    (Type, Vec<TraitConstraint>),
    Fault,
>)
    requires
        old(program).has(id),
        old(program).outline().shapes[id.0 as int] is Match,
    ensures
        final(program).outline() == old(program).outline(),
        finds(
            result,
            infer_match(old(program).outline(), mind(old(program), old(cache)), id, fuel as nat),
            mind(final(program), final(cache)),
        ),
    decreases fuel, 8nat, 0nat,
{
    reveal(infer_match);
    reveal(infer);
    reveal(infer_branches);
    let error_count = cache.diagnostics.len();
    assert(cache.knowledge().diagnostics.len() == error_count);
    let (expression, branches) = match form_of(program, id) {
        Form::Match(expression, branches) => (expression, branches),
        _ => {
            return Err(Fault::Malformed);
        },
    };
    let (scrutinee, mut traits) = match infer_node(program, expression, cache, fuel) {
        Err(fault) => {
            return Err(fault);
        },
        Ok(found) => found,
    };
    let ghost scrutinee_traits = constraints_of(traits@);
    let mut return_type = Type::Primitive(PrimitiveType::UnitType);
    if branches.len() > 0 {
        // The first branch is inferred apart from the others, which are unified with it.
        let (pattern, body) = branches[0];
        let (pattern_type, mut pattern_traits) = match infer_node(program, pattern, cache, fuel) {
            Err(fault) => {
                return Err(fault);
            },
            Ok(found) => found,
        };
        let ghost first = constraints_of(pattern_traits@);
        proof {
            lemma_constraints_append(traits@, pattern_traits@);
            assert(program.shapes().len() == old(program).shapes().len());
        }
        traits.append(&mut pattern_traits);
        let pattern_location = program.nodes[pattern.0].location;
        assert(program.outline().places[pattern.0 as int] == pattern_location);
        unify_types(&scrutinee, &pattern_type, pattern_location, cache);
        let (branch, mut branch_traits) = match infer_node(program, body, cache, fuel) {
            Err(fault) => {
                return Err(fault);
            },
            Ok(found) => found,
        };
        let ghost second = constraints_of(branch_traits@);
        return_type = branch;
        proof {
            lemma_constraints_append(traits@, branch_traits@);
        }
        traits.append(&mut branch_traits);
        let ghost m4 = mind(program, cache);
        match infer_match_branches(program, &branches, 1, &scrutinee, &return_type, &mut traits, cache, fuel) {
            Err(fault) => {
                return Err(fault);
            },
            Ok(()) => {},
        }
        proof {
            let others = infer_branches(
                old(program).outline(),
                m4,
                branches@,
                1,
                scrutinee@,
                return_type@,
                fuel as nat,
            ).0->Ok_0;
            assert(((scrutinee_traits + first) + second) + others =~= scrutinee_traits + (first + second + others));
        }
    } else {
        assert(scrutinee_traits + Seq::<Constraint>::empty() =~= scrutinee_traits);
    }
    proof {
        assert(program.shapes().len() == old(program).shapes().len());
        assert(program.notes().len() == program.shapes().len());
        assert(program.outline().shapes[id.0 as int] == shape_of(program.nodes@[id.0 as int].kind));
    }
    // The decision tree of the match is built only if each pattern is well-typed, which
    // is so if nothing was reported while the match was inferred.
    let ready = cache.diagnostics.len() == error_count;
    assert(cache.knowledge().diagnostics.len() == cache.diagnostics@.len());
    program.set_ready(id, ready);
    Ok((return_type, traits))
}

} // verus!
