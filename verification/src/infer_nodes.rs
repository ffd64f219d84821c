//! The rules of inference for single nodes: literals, the reading of a node, and the
//! binding of the parameters and the captured variables of a lambda.
use vstd::prelude::*;
use crate::ast::{LiteralKind, NodeKind, Program};
use crate::cache::ModuleCache;
use crate::error::Fault;
use crate::infer_cache::set_definition_type;
use crate::infer_model::{captures_of, shape_of, Shape};
use crate::infer_notes::same_shape;
use crate::infer_patterns::{bind_irrefutable_pattern, leaves, mind};
use crate::infer_rules::{bind_captures, infer_literal, Mind};
use crate::infer_state::{decimal_text, fresh_type, int_constraint};
use crate::infer_walk::{bind_parameters, Inference};
use crate::resolve::lemma_knowledge_but_store;
use crate::traits::{constraints_of, Constraint, RequiredTrait, TraitConstraint};
use crate::types::{
    terms_of, AstId, DefinitionInfoId, GeneralizedType, ImplInfoId, ImplScopeId, IntegerKind,
    LetBindingLevel, PrimitiveType, TraitInfoId, Type, TypeInfoId, VariableId, STRING_TYPE,
};
use crate::unify::RECURSION_LIMIT;

verus! {

/// Does `result` hold the type and the obligations of the outcome, with `after` the mind of
/// the outcome; or the fault of the outcome?
pub open spec fn finds(result: Result<(Type, Vec<TraitConstraint>), Fault>, expected: Inference, after: Mind) -> bool {
    match expected.0 {
        Ok((t, cs)) => result matches Ok((typ, constraints)) && typ@ == t && constraints_of(constraints@) == cs
            && after == expected.1,
        Err(fault) => result matches Err(f) && f == fault,
    }
}

/// What a node is, with copies of what inference reads of it.
pub enum Form {
    Literal,
    Variable(Option<DefinitionInfoId>, Option<VariableId>, Option<ImplScopeId>),
    Lambda(Vec<AstId>, AstId),
    FunctionCall(AstId, Vec<AstId>),
    Definition(AstId, AstId, bool, Option<LetBindingLevel>),
    If(AstId, AstId, Option<AstId>),
    Match(AstId, Vec<(AstId, AstId)>),
    TypeDefinition,
    TypeAnnotation(AstId),
    Import,
    Declarations(Vec<AstId>, Option<LetBindingLevel>),
    TraitImpl(Option<TraitInfoId>, Option<ImplInfoId>, Vec<Type>, Vec<AstId>),
    Return(AstId),
    Sequence(Vec<AstId>),
    MemberAccess(AstId, String),
    Assignment(AstId, AstId),
}

/// Does the form hold what the shape holds?
pub open spec fn forms(form: Form, shape: Shape) -> bool {
    match shape {
        Shape::Literal(_) => form is Literal,
        Shape::Variable(_, definition, occurrence, scope) => form == Form::Variable(definition, occurrence, scope),
        Shape::Lambda(args, body, _) => form matches Form::Lambda(found, b) && found@ == args && b == body,
        Shape::FunctionCall(function, args) => form matches Form::FunctionCall(f, found) && f == function
            && found@ == args,
        Shape::Definition(pattern, expr, mutable, level) => form == Form::Definition(pattern, expr, mutable, level),
        Shape::If(condition, then_branch, otherwise) => form == Form::If(condition, then_branch, otherwise),
        Shape::Match(expression, branches) => form matches Form::Match(e, found) && e == expression && found@
            == branches,
        Shape::TypeDefinition => form is TypeDefinition,
        Shape::TypeAnnotation(lhs, _) => form == Form::TypeAnnotation(lhs),
        Shape::Import => form is Import,
        Shape::TraitDefinition(declarations, level) => form matches Form::Declarations(found, l) && found@
            == declarations && l == level,
        Shape::Extern(declarations, level) => form matches Form::Declarations(found, l) && found@ == declarations
            && l == level,
        Shape::TraitImpl(trait_info, impl_id, args, definitions) => form matches Form::TraitImpl(t, i, a, d) && t
            == trait_info && i == impl_id && terms_of(a@) == args && d@ == definitions,
        Shape::Return(expression) => form == Form::Return(expression),
        Shape::Sequence(statements) => form matches Form::Sequence(found) && found@ == statements,
        Shape::MemberAccess(lhs, field) => form matches Form::MemberAccess(l, name) && l == lhs && name@ == field,
        Shape::Assignment(lhs, rhs) => form == Form::Assignment(lhs, rhs),
    }
}

/// What the node is.
#[verifier::loop_isolation(false)]
pub fn form_of(program: &Program, id: AstId) -> (form: Form)
    requires
        program.has(id),
    ensures
        forms(form, program.outline().shapes[id.0 as int]),
{
    assert(program.outline().shapes[id.0 as int] == shape_of(program.nodes@[id.0 as int].kind));
    match &program.nodes[id.0].kind {
        NodeKind::Literal(_) => Form::Literal,
        NodeKind::Variable(variable) => Form::Variable(variable.definition, variable.id, variable.impl_scope),
        NodeKind::Lambda(args, body, _) => {
            let copied = args.clone();
            assert(copied@ =~= args@);
            Form::Lambda(copied, *body)
        },
        NodeKind::FunctionCall(function, args) => {
            let copied = args.clone();
            assert(copied@ =~= args@);
            Form::FunctionCall(*function, copied)
        },
        NodeKind::Definition(pattern, expr, mutable, level) => Form::Definition(*pattern, *expr, *mutable, *level),
        NodeKind::If(condition, then_branch, otherwise) => Form::If(*condition, *then_branch, *otherwise),
        NodeKind::Match(expression, branches, _) => {
            let mut copied: Vec<(AstId, AstId)> = Vec::new();
            let mut i: usize = 0;
            while i < branches.len()
                invariant
                    i <= branches.len(),
                    copied@ == branches@.take(i as int),
                decreases branches.len() - i,
            {
                copied.push((branches[i].0, branches[i].1));
                assert(copied@ =~= branches@.take(i + 1));
                i += 1;
            }
            assert(copied@ =~= branches@);
            Form::Match(*expression, copied)
        },
        NodeKind::TypeDefinition => Form::TypeDefinition,
        NodeKind::TypeAnnotation(lhs, _) => Form::TypeAnnotation(*lhs),
        NodeKind::Import => Form::Import,
        NodeKind::TraitDefinition(declarations, level) => {
            let copied = declarations.clone();
            assert(copied@ =~= declarations@);
            Form::Declarations(copied, *level)
        },
        NodeKind::TraitImpl(trait_info, impl_id, args, definitions) => {
            let copied = definitions.clone();
            assert(copied@ =~= definitions@);
            Form::TraitImpl(*trait_info, *impl_id, crate::types::clone_types(args), copied)
        },
        NodeKind::Return(expression) => Form::Return(*expression),
        NodeKind::Sequence(statements) => {
            let copied = statements.clone();
            assert(copied@ =~= statements@);
            Form::Sequence(copied)
        },
        NodeKind::Extern(declarations, level) => {
            let copied = declarations.clone();
            assert(copied@ =~= declarations@);
            Form::Declarations(copied, *level)
        },
        NodeKind::MemberAccess(lhs, field) => Form::MemberAccess(*lhs, field.clone()),
        NodeKind::Assignment(lhs, rhs) => Form::Assignment(*lhs, *rhs),
    }
}

/// The type of a literal. An integer without a suffix gets a new type variable for its
/// type, which the literal is changed to name, and the obligation that the variable be
/// an integer type.
pub fn infer_literal_node(program: &mut Program, id: AstId, cache: &mut ModuleCache) -> (result: Result<
    (Type, Vec<TraitConstraint>),
    Fault,
>)
    requires
        old(program).has(id),
        old(program).node(id).kind is Literal,
    ensures
        same_shape(*final(program), *old(program)),
        finds(
            result,
            infer_literal(
                old(program).outline(),
                mind(old(program), old(cache)),
                id,
                old(program).outline().shapes[id.0 as int]->Literal_0,
            ),
            mind(final(program), final(cache)),
        ),
{
    assert(program.outline().shapes[id.0 as int] == shape_of(program.nodes@[id.0 as int].kind));
    assert(program.notes()[id.0 as int] == crate::infer_model::note_of(program.nodes@[id.0 as int]));
    let location = program.nodes[id.0].location;
    assert(program.outline().places[id.0 as int] == location);
    let none: Vec<TraitConstraint> = Vec::new();
    assert(constraints_of(none@) =~= Seq::<Constraint>::empty());
    let integer = match &program.nodes[id.0].kind {
        NodeKind::Literal(LiteralKind::Integer(x, kind)) => Some((*x, *kind)),
        NodeKind::Literal(LiteralKind::Float(_)) => {
            return Ok((Type::Primitive(PrimitiveType::FloatType), none));
        },
        NodeKind::Literal(LiteralKind::String(_)) => {
            return Ok((Type::UserDefined(TypeInfoId(STRING_TYPE)), none));
        },
        NodeKind::Literal(LiteralKind::Char(_)) => {
            return Ok((Type::Primitive(PrimitiveType::CharType), none));
        },
        NodeKind::Literal(LiteralKind::Bool(_)) => {
            return Ok((Type::Primitive(PrimitiveType::BooleanType), none));
        },
        _ => None,
    };
    match integer {
        None => Ok((Type::Primitive(PrimitiveType::UnitType), none)),
        Some((x, IntegerKind::Unknown)) => {
            // The literal is changed to name the type variable, which is constrained to the
            // integer types.
            let int_type = cache.type_bindings.len();
            let made = fresh_type(cache);
            let callsite = cache.push_variable(decimal_text(x), location);
            let trait_impl = match int_constraint(int_type, callsite, cache) {
                Err(fault) => {
                    return Err(fault);
                },
                Ok(trait_impl) => trait_impl,
            };
            program.set_integer_kind(id, IntegerKind::Inferred(int_type));
            let mut constraints: Vec<TraitConstraint> = Vec::new();
            constraints.push(trait_impl);
            assert(constraints_of(constraints@) =~= seq![trait_impl@]);
            Ok((Type::TypeVariable(int_type), constraints))
        },
        Some((_, kind)) => Ok((Type::Primitive(PrimitiveType::IntegerType(kind)), none)),
    }
}

/// Binds each parameter of a lambda to its type, from position `at` on.
pub fn bind_lambda_parameters(program: &mut Program, args: &Vec<AstId>, types: &Vec<Type>, at: usize, cache: &mut ModuleCache) -> (result:
    Result<(), Fault>)
    ensures
        same_shape(*final(program), *old(program)),
        leaves(
            result,
            bind_parameters(
                old(program).outline(),
                mind(old(program), old(cache)),
                args@,
                terms_of(types@),
                at as nat,
            ),
            mind(final(program), final(cache)),
        ),
    decreases args@.len() - at,
{
    if at >= args.len() || at >= types.len() {
        return Ok(());
    }
    assert(terms_of(types@)[at as int] == types@[at as int]@);
    let none: Vec<RequiredTrait> = Vec::new();
    assert(crate::traits::required_of(none@) =~= Seq::empty());
    match bind_irrefutable_pattern(program, args[at], &types[at], &none, false, cache, RECURSION_LIMIT) {
        Err(fault) => Err(fault),
        Ok(()) => bind_lambda_parameters(program, args, types, at + 1, cache),
    }
}

/// Gives each variable that the lambda `id` captures, from position `at` on, its type
/// inside the lambda: an instance of the type that it has outside, so that the body of
/// the lambda is inferred with the types of the captured variables known.
pub fn bind_closure_environment(program: &mut Program, id: AstId, at: usize, cache: &mut ModuleCache) -> (result:
    Result<(), Fault>)
    requires
        old(program).has(id),
        old(program).node(id).kind is Lambda,
    ensures
        same_shape(*final(program), *old(program)),
        leaves(
            result,
            bind_captures(
                mind(old(program), old(cache)),
                id,
                old(program).outline().shapes[id.0 as int]->Lambda_2,
                at as nat,
            ),
            mind(final(program), final(cache)),
        ),
    decreases old(program).outline().shapes[id.0 as int]->Lambda_2.len() - at,
{
    assert(program.outline().shapes[id.0 as int] == shape_of(program.nodes@[id.0 as int].kind));
    assert(program.notes()[id.0 as int] == crate::infer_model::note_of(program.nodes@[id.0 as int]));
    let (outer, inner) = match &program.nodes[id.0].kind {
        NodeKind::Lambda(_, _, environment) => {
            if at >= environment.len() {
                return Ok(());
            }
            assert(captures_of(environment@)[at as int] == (
                environment@[at as int].outer,
                environment@[at as int].variable,
                environment@[at as int].inner,
            ));
            (environment[at].outer, environment[at].inner)
        },
        _ => {
            return Ok(());
        },
    };
    if outer.0 >= cache.definition_infos.len() || inner.0 >= cache.definition_infos.len() {
        return Err(Fault::UnknownDefinition(outer.0));
    }
    assert(cache.knowledge().definitions[outer.0 as int] == cache.definition_infos@[outer.0 as int]@);
    assert(cache.knowledge().definitions[inner.0 as int] == cache.definition_infos@[inner.0 as int]@);
    let scheme = match &cache.definition_infos[outer.0].typ {
        None => None,
        Some(scheme) => Some(scheme.clone()),
    };
    match scheme {
        None => {},
        Some(scheme) => {
            let ghost before = *cache;
            let none: Vec<TraitConstraint> = Vec::new();
            assert(constraints_of(none@) =~= Seq::<Constraint>::empty());
            let (typ, _, bindings) = match scheme.instantiate(none, cache) {
                Err(fault) => {
                    return Err(fault);
                },
                Ok(instance) => instance,
            };
            proof {
                lemma_knowledge_but_store(&before, cache);
            }
            if cache.definition_infos[inner.0].typ.is_some() {
                return Err(Fault::Malformed);
            }
            // The variables used inside the closure are monomorphic, as parameters are.
            set_definition_type(cache, inner, Some(GeneralizedType::MonoType(typ)));
            program.set_capture(id, at, bindings);
        },
    }
    proof {
        assert(program.outline().shapes[id.0 as int] == old(program).outline().shapes[id.0 as int]);
        assert(program.shapes().len() == old(program).shapes().len());
        assert(program.outline().shapes[id.0 as int] == shape_of(program.nodes@[id.0 as int].kind));
        assert(old(program).outline().shapes[id.0 as int] is Lambda);
    }
    bind_closure_environment(program, id, at + 1, cache)
}

} // verus!
