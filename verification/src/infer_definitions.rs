//! Inference of definitions and of declarations: the right-hand side is inferred one
//! level up, the pattern is bound, and the type is generalised where that is sound.
use vstd::prelude::*;
use crate::ast::Program;
use crate::cache::ModuleCache;
use crate::error::Fault;
use crate::generalize::find_all_typevars;
use crate::infer::infer_node;
use crate::infer_cache::set_level;
use crate::infer_model::note_of;
use crate::infer_nodes::{finds, form_of, Form};
use crate::infer_patterns::{bind_irrefutable_pattern, leaves, mind, should_generalize};
use crate::infer_walk::{bind_declarations, generalize_definition, infer, infer_declarations};
use crate::resolve::resolve_traits;
use crate::traits::{constraints_of, required_of, Callsite, Constraint, RequiredTrait, Signature, TraitConstraint};
use crate::types::{AstId, LetBindingLevel, PrimitiveType, Type};
use crate::unify::RECURSION_LIMIT;

verus! {

/// Infers the definition unless that was done already.
pub fn infer_definition(program: &mut Program, id: AstId, cache: &mut ModuleCache, fuel: u32) -> (result: Result<
    (Type, Vec<TraitConstraint>),
    Fault,
>)
    requires
        old(program).has(id),
        old(program).outline().shapes[id.0 as int] is Definition,
    ensures
        final(program).outline() == old(program).outline(),
        finds(
            result,
            crate::infer_walk::infer_definition(
                old(program).outline(),
                mind(old(program), old(cache)),
                id,
                fuel as nat,
            ),
            mind(final(program), final(cache)),
        ),
    decreases fuel, 8nat, 0nat,
{
    reveal(crate::infer_walk::infer_definition);
    reveal(infer);
    let (pattern, expr, level) = match form_of(program, id) {
        Form::Definition(pattern, expr, _, level) => (pattern, expr, level),
        _ => {
            return Err(Fault::Malformed);
        },
    };
    let unit_type = Type::Primitive(PrimitiveType::UnitType);
    let none: Vec<TraitConstraint> = Vec::new();
    assert(constraints_of(none@) =~= Seq::<Constraint>::empty());
    assert(program.notes()[id.0 as int] == note_of(program.nodes@[id.0 as int]));
    if program.nodes[id.0].typ.is_some() {
        return Ok((unit_type, none));
    }
    let level = match level {
        None => {
            return Err(Fault::Malformed);
        },
        Some(level) => level,
    };
    if level.0 == 0 {
        return Err(Fault::Malformed);
    }
    let previous = cache.current_level;
    set_level(cache, level.0);
    // The node is marked as done before anything in it is inferred, so that a use of the
    // definition in its own right-hand side does not come back here.
    program.set_type(id, unit_type.clone());
    let (t, traits) = match infer_node(program, expr, cache, fuel) {
        Err(fault) => {
            return Err(fault);
        },
        Ok(found) => found,
    };
    set_level(cache, level.0 - 1);
    let nothing: Vec<RequiredTrait> = Vec::new();
    assert(required_of(nothing@) =~= Seq::<(Signature, Callsite)>::empty());
    match bind_irrefutable_pattern(program, pattern, &t, &nothing, false, cache, RECURSION_LIMIT) {
        Err(fault) => {
            return Err(fault);
        },
        Ok(()) => {},
    }
    assert(program.notes().len() == program.nodes@.len());
    if pattern.0 >= program.nodes.len() {
        return Err(Fault::Malformed);
    }
    assert(program.notes()[pattern.0 as int] == note_of(program.nodes@[pattern.0 as int]));
    if program.nodes[pattern.0].typ.is_none() {
        program.set_type(pattern, t.clone());
    }
    let left = if should_generalize(program, expr) {
        match generalize_definition_node(program, pattern, &t, traits, cache) {
            Err(fault) => {
                return Err(fault);
            },
            Ok(left) => left,
        }
    } else {
        traits
    };
    set_level(cache, previous);
    Ok((unit_type, left))
}

/// Generalises a definition: resolves the obligations that arose in it, and binds its
/// pattern anew, with the obligations left over and to the generalised type.
pub fn generalize_definition_node(
    program: &mut Program,
    pattern: AstId,
    t: &Type,
    constraints: Vec<TraitConstraint>,
    cache: &mut ModuleCache,
) -> (result: Result<Vec<TraitConstraint>, Fault>)
    requires
        old(program).has(pattern),
    ensures
        final(program).outline() == old(program).outline(),
        ({
            let expected = generalize_definition(
                old(program).outline(),
                mind(old(program), old(cache)),
                pattern,
                t@,
                constraints_of(constraints@),
            );
            match expected.0 {
                Ok(left) => result matches Ok(found) && constraints_of(found@) == left && mind(
                    final(program),
                    final(cache),
                ) == expected.1,
                Err(fault) => result matches Err(f) && f == fault,
            }
        }),
{
    assert(program.notes()[pattern.0 as int] == note_of(program.nodes@[pattern.0 as int]));
    let pattern_type = match &program.nodes[pattern.0].typ {
        None => {
            return Err(Fault::Malformed);
        },
        Some(typ) => typ.clone(),
    };
    let typevars = match find_all_typevars(&pattern_type, false, cache) {
        Err(fault) => {
            return Err(fault);
        },
        Ok(typevars) => typevars,
    };
    assert(constraints_of(constraints@).len() == constraints@.len());
    let exposed = match resolve_traits(constraints, &typevars, cache) {
        Err(fault) => {
            return Err(fault);
        },
        Ok(exposed) => exposed,
    };
    match bind_irrefutable_pattern(program, pattern, t, &exposed, true, cache, RECURSION_LIMIT) {
        Err(fault) => {
            return Err(fault);
        },
        Ok(()) => {},
    }
    let none: Vec<TraitConstraint> = Vec::new();
    assert(constraints_of(none@) =~= Seq::<Constraint>::empty());
    Ok(none)
}

/// Binds each declaration, from position `at` on: the annotated pattern to the
/// generalisation of the type it is annotated with.
pub fn bind_declared(program: &mut Program, declarations: &Vec<AstId>, at: usize, cache: &mut ModuleCache) -> (result:
    Result<(), Fault>)
    ensures
        final(program).outline() == old(program).outline(),
        leaves(
            result,
            bind_declarations(old(program).outline(), mind(old(program), old(cache)), declarations@, at as nat),
            mind(final(program), final(cache)),
        ),
    decreases declarations@.len() - at,
{
    if at >= declarations.len() {
        return Ok(());
    }
    let declaration = declarations[at];
    assert(program.notes().len() == program.nodes@.len());
    assert(program.shapes().len() == program.nodes@.len());
    if declaration.0 >= program.nodes.len() {
        return Err(Fault::Malformed);
    }
    assert(program.notes()[declaration.0 as int] == note_of(program.nodes@[declaration.0 as int]));
    let lhs = match form_of(program, declaration) {
        Form::TypeAnnotation(lhs) => lhs,
        _ => {
            return Err(Fault::Malformed);
        },
    };
    let rhs = match &program.nodes[declaration.0].typ {
        None => {
            return Err(Fault::Malformed);
        },
        Some(rhs) => rhs.clone(),
    };
    let nothing: Vec<RequiredTrait> = Vec::new();
    assert(required_of(nothing@) =~= Seq::<(Signature, Callsite)>::empty());
    match bind_irrefutable_pattern(program, lhs, &rhs, &nothing, true, cache, RECURSION_LIMIT) {
        Err(fault) => {
            return Err(fault);
        },
        Ok(()) => {},
    }
    bind_declared(program, declarations, at + 1, cache)
}

/// Infers the declarations of a trait, or of names that are defined elsewhere: each name
/// gets the generalisation of the type it is declared with, at the level of the
/// declaration.
pub fn infer_declarations_node(
    program: &mut Program,
    declarations: &Vec<AstId>,
    level: Option<LetBindingLevel>,
    cache: &mut ModuleCache,
) -> (result: Result<(Type, Vec<TraitConstraint>), Fault>)
    ensures
        final(program).outline() == old(program).outline(),
        finds(
            result,
            infer_declarations(old(program).outline(), mind(old(program), old(cache)), declarations@, level),
            mind(final(program), final(cache)),
        ),
{
    let level = match level {
        None => {
            return Err(Fault::Malformed);
        },
        Some(level) => level,
    };
    let previous = cache.current_level;
    set_level(cache, level.0);
    match bind_declared(program, declarations, 0, cache) {
        Err(fault) => {
            return Err(fault);
        },
        Ok(()) => {},
    }
    set_level(cache, previous);
    let none: Vec<TraitConstraint> = Vec::new();
    assert(constraints_of(none@) =~= Seq::<Constraint>::empty());
    Ok((Type::Primitive(PrimitiveType::UnitType), none))
}

} // verus!
