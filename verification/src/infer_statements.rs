//! Inference of the nodes that only pass on what is found in their parts: annotations,
//! returns, sequences, member accesses and assignments.
use vstd::prelude::*;
use vstd::string::StringExecFns;
use crate::ast::{NodeKind, Program, BUILTIN_ID};
use crate::cache::ModuleCache;
use crate::error::{Fault, UnificationError};
use crate::infer::{infer_node, infer_nodes, lemma_constraints_append};
use crate::infer_model::{note_of, shape_of};
use crate::infer_nodes::{finds, form_of, Form};
use crate::infer_patterns::mind;
use crate::infer_rules::mutable_place;
use crate::unify::RECURSION_LIMIT;
use crate::infer_state::{report, fresh_type, make_constraint, member_trait_name, unify_types};
use crate::infer_walk::{infer, infer_each, infer_kind};
use crate::traits::{constraints_of, Constraint, TraitConstraint};
use crate::types::{terms_of, AstId, LetBindingLevel, PrimitiveType, Term, Type};

verus! {

/// Infers the type of an annotated node: that of the node, which is unified with the
/// annotation.
pub fn infer_annotation_node(program: &mut Program, id: AstId, cache: &mut ModuleCache, fuel: u32) -> (result: Result<
    (Type, Vec<TraitConstraint>),
    Fault,
>)
    requires
        old(program).has(id),
        old(program).outline().shapes[id.0 as int] is TypeAnnotation,
    ensures
        final(program).outline() == old(program).outline(),
        finds(
            result,
            infer_kind(old(program).outline(), mind(old(program), old(cache)), id, fuel as nat),
            mind(final(program), final(cache)),
        ),
    decreases fuel, 8nat, 0nat,
{
    reveal(infer_kind);
    reveal(infer);
    let location = program.nodes[id.0].location;
    assert(program.outline().places[id.0 as int] == location);
    let lhs = match form_of(program, id) {
        Form::TypeAnnotation(lhs) => lhs,
        _ => {
            return Err(Fault::Malformed);
        },
    };
    let (typ, traits) = match infer_node(program, lhs, cache, fuel) {
        Err(fault) => {
            return Err(fault);
        },
        Ok(found) => found,
    };
    assert(program.shapes().len() == old(program).shapes().len());
    assert(program.notes()[id.0 as int] == note_of(program.nodes@[id.0 as int]));
    let annotation = match &program.nodes[id.0].typ {
        None => {
            return Err(Fault::Malformed);
        },
        Some(annotation) => annotation.clone(),
    };
    unify_types(&typ, &annotation, location, cache);
    Ok((typ, traits))
}

/// Infers the type of a return: any type, as control does not go on from it.
pub fn infer_return_node(program: &mut Program, id: AstId, cache: &mut ModuleCache, fuel: u32) -> (result: Result<
    (Type, Vec<TraitConstraint>),
    Fault,
>)
    requires
        old(program).has(id),
        old(program).outline().shapes[id.0 as int] is Return,
    ensures
        final(program).outline() == old(program).outline(),
        finds(
            result,
            infer_kind(old(program).outline(), mind(old(program), old(cache)), id, fuel as nat),
            mind(final(program), final(cache)),
        ),
    decreases fuel, 8nat, 0nat,
{
    reveal(infer_kind);
    reveal(infer);
    let expression = match form_of(program, id) {
        Form::Return(expression) => expression,
        _ => {
            return Err(Fault::Malformed);
        },
    };
    let traits = match infer_node(program, expression, cache, fuel) {
        Err(fault) => {
            return Err(fault);
        },
        Ok((_, traits)) => traits,
    };
    Ok((fresh_type(cache), traits))
}

/// Infers the type of a sequence: that of its last statement.
pub fn infer_sequence_node(program: &mut Program, id: AstId, cache: &mut ModuleCache, fuel: u32) -> (result: Result<
    (Type, Vec<TraitConstraint>),
    Fault,
>)
    requires
        old(program).has(id),
        old(program).outline().shapes[id.0 as int] is Sequence,
    ensures
        final(program).outline() == old(program).outline(),
        finds(
            result,
            infer_kind(old(program).outline(), mind(old(program), old(cache)), id, fuel as nat),
            mind(final(program), final(cache)),
        ),
    decreases fuel, 8nat, 0nat,
{
    reveal(infer_kind);
    reveal(infer_each);
    let statements = match form_of(program, id) {
        Form::Sequence(statements) => statements,
        _ => {
            return Err(Fault::Malformed);
        },
    };
    if statements.len() == 0 {
        return Err(Fault::Malformed);
    }
    let mut types: Vec<Type> = Vec::new();
    let mut traits: Vec<TraitConstraint> = Vec::new();
    assert(terms_of(types@) =~= Seq::<Term>::empty());
    assert(constraints_of(traits@) =~= Seq::<Constraint>::empty());
    match infer_nodes(program, &statements, 0, &mut types, &mut traits, cache, fuel) {
        Err(fault) => {
            return Err(fault);
        },
        Ok(()) => {},
    }
    proof {
        let found = infer_each(
            old(program).outline(),
            mind(old(program), old(cache)),
            statements@,
            0,
            fuel as nat,
        ).0->Ok_0;
        assert(Seq::<Term>::empty() + found.0 =~= found.0);
        assert(Seq::<Constraint>::empty() + found.1 =~= found.1);
    }
    if types.len() == 0 {
        return Err(Fault::Malformed);
    }
    assert(terms_of(types@)[types@.len() - 1] == types@[types@.len() - 1]@);
    let last = types.pop().unwrap();
    Ok((last, traits))
}

/// Infers the type of a member access: a new type variable, which the trait of the
/// field ties to the type of the collection.
pub fn infer_member_access_node(program: &mut Program, id: AstId, cache: &mut ModuleCache, fuel: u32) -> (result:
    Result<(Type, Vec<TraitConstraint>), Fault>)
    requires
        old(program).has(id),
        old(program).outline().shapes[id.0 as int] is MemberAccess,
    ensures
        final(program).outline() == old(program).outline(),
        finds(
            result,
            infer_kind(old(program).outline(), mind(old(program), old(cache)), id, fuel as nat),
            mind(final(program), final(cache)),
        ),
    decreases fuel, 8nat, 0nat,
{
    reveal(infer_kind);
    reveal(infer);
    let location = program.nodes[id.0].location;
    assert(program.outline().places[id.0 as int] == location);
    let (lhs, field) = match form_of(program, id) {
        Form::MemberAccess(lhs, field) => (lhs, field),
        _ => {
            return Err(Fault::Malformed);
        },
    };
    let (collection_type, mut traits) = match infer_node(program, lhs, cache, fuel) {
        Err(fault) => {
            return Err(fault);
        },
        Ok(found) => found,
    };
    let level = LetBindingLevel(cache.current_level);
    let trait_id = cache.get_member_access_trait(&field, level);
    let field_type = fresh_type(cache);
    let mut typeargs: Vec<Type> = Vec::new();
    typeargs.push(collection_type);
    typeargs.push(field_type.clone());
    assert(terms_of(typeargs@) =~= seq![typeargs@[0]@, typeargs@[1]@]);
    proof {
        reveal_strlit(".");
    }
    let name = String::from_str(".").concat(field.as_str());
    assert(name@ =~= member_trait_name(field@));
    let callsite = cache.push_variable(name, location);
    let trait_impl = match make_constraint(trait_id, typeargs, callsite, cache) {
        Err(fault) => {
            return Err(fault);
        },
        Ok(trait_impl) => trait_impl,
    };
    proof {
        assert(constraints_of(traits@.push(trait_impl)) =~= constraints_of(traits@).push(trait_impl@));
    }
    traits.push(trait_impl);
    Ok((field_type, traits))
}

/// Infers the type of an assignment, which is unit.
pub fn infer_assignment_node(program: &mut Program, id: AstId, cache: &mut ModuleCache, fuel: u32) -> (result: Result<
    (Type, Vec<TraitConstraint>),
    Fault,
>)
    requires
        old(program).has(id),
        old(program).outline().shapes[id.0 as int] is Assignment,
    ensures
        final(program).outline() == old(program).outline(),
        finds(
            result,
            infer_kind(old(program).outline(), mind(old(program), old(cache)), id, fuel as nat),
            mind(final(program), final(cache)),
        ),
    decreases fuel, 8nat, 0nat,
{
    reveal(infer_kind);
    reveal(infer);
    let (lhs, rhs) = match form_of(program, id) {
        Form::Assignment(lhs, rhs) => (lhs, rhs),
        _ => {
            return Err(Fault::Malformed);
        },
    };
    let mut traits = match infer_node(program, lhs, cache, fuel) {
        Err(fault) => {
            return Err(fault);
        },
        Ok((_, traits)) => traits,
    };
    let mut more = match infer_node(program, rhs, cache, fuel) {
        Err(fault) => {
            return Err(fault);
        },
        Ok((_, more)) => more,
    };
    proof {
        lemma_constraints_append(traits@, more@);
        assert(program.shapes().len() == old(program).shapes().len());
    }
    traits.append(&mut more);
    let location = program.nodes[id.0].location;
    assert(program.outline().places[id.0 as int] == location);
    if !is_mutable_place(program, lhs, cache, RECURSION_LIMIT) {
        report(UnificationError::NotMutable, location, cache);
    }
    Ok((Type::Primitive(PrimitiveType::UnitType), traits))
}

/// Can the node be assigned to?
pub fn is_mutable_place(program: &Program, id: AstId, cache: &ModuleCache, fuel: u32) -> (mutable: bool)
    ensures
        mutable == mutable_place(program.outline(), cache.knowledge(), id, fuel as nat),
    decreases fuel,
{
    if fuel == 0 || id.0 >= program.nodes.len() {
        return false;
    }
    assert(program.outline().shapes[id.0 as int] == shape_of(program.nodes@[id.0 as int].kind));
    match &program.nodes[id.0].kind {
        NodeKind::Variable(variable) => match variable.definition {
            Some(d) => {
                if d.0 < cache.definition_infos.len() {
                    assert(cache.knowledge().definitions[d.0 as int] == cache.definition_infos@[d.0 as int]@);
                    cache.definition_infos[d.0].mutable
                } else {
                    false
                }
            },
            None => false,
        },
        NodeKind::TypeAnnotation(lhs, mutable) => *mutable || is_mutable_place(program, *lhs, cache, fuel - 1),
        NodeKind::MemberAccess(lhs, _) => is_mutable_place(program, *lhs, cache, fuel - 1),
        NodeKind::FunctionCall(function, _) => {
            if function.0 < program.nodes.len() {
                assert(program.outline().shapes[function.0 as int] == shape_of(
                    program.nodes@[function.0 as int].kind,
                ));
                match &program.nodes[function.0].kind {
                    NodeKind::Variable(variable) => match variable.definition {
                        Some(d) => d.0 == BUILTIN_ID,
                        None => false,
                    },
                    _ => false,
                }
            } else {
                false
            }
        },
        _ => false,
    }
}

} // verus!
