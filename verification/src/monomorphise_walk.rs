//! What monomorphisation makes of each kind of node.
use vstd::prelude::*;
use crate::ast::{ClosureEntry, LiteralKind, NodeKind, Program, Variable, BUILTIN_ID};
use crate::cache::{DefinitionKind, ModuleCache};
use crate::context::{chase_all, Lowered};
use crate::dispatch::{traits_entered, last_with, with_required_impls, with_traits};
use crate::emit::{extracted, plain, referenced};
use crate::error::Fault;
use crate::hir::{CastOp, Constant, DefinitionId, Name, Tree};
use crate::hir_types::{IntegerKind, Layout, PrimitiveType};
use crate::layout::source_size;
use crate::lowering::lower;
use crate::mono_state::{bindings_popped, bindings_pushed, defined, MonoState};
use crate::monomorphise_spec::{
    binary_named, cast_named, constructor_definition, constructor_tree, field_index, fixed_args,
    function_type_of, is_mutable_pattern, mono_literal, one_or_sequence, size_of_argument, take_id,
    Outcome,
};
use crate::sequence::after;
use crate::types::{AstId, DefinitionInfoId, Term, Type, TypeVariableId, VariableId};
use crate::unify::{bindings_model, RECURSION_LIMIT};

verus! {

/// The type in the type slot of the node, with all bindings followed.
#[verifier::opaque]
pub open spec fn followed_type(program: Program, cache: ModuleCache, id: AstId, st: MonoState) -> Result<Term, Fault> {
    if !program.has(id) {
        Err(Fault::Malformed)
    } else {
        match program.node(id).typ {
            None => Err(Fault::Malformed),
            Some(typ) => chase_all(typ@, st.stack, cache.store(), RECURSION_LIMIT as nat),
        }
    }
}

/// What the node is lowered to.
#[verifier::opaque]
pub open spec fn mono(program: Program, cache: ModuleCache, id: AstId, st: MonoState, fuel: nat) -> Outcome
    decreases fuel, 0nat, 0nat,
{
    if fuel == 0 {
        (Err(Fault::RecursionLimit), st)
    } else if !program.has(id) {
        (Err(Fault::Malformed), st)
    } else {
        let less = (fuel - 1) as nat;
        let node = program.node(id);
        match node.kind {
            NodeKind::Literal(kind) => (mono_literal(kind, cache, st), st),
            NodeKind::Variable(variable) => mono_variable(program, cache, variable, node.typ, st, less),
            NodeKind::Lambda(args, body, environment) => mono_lambda(program, cache, id, st, less),
            NodeKind::FunctionCall(function, args) => mono_call(program, cache, id, st, less),
            NodeKind::Definition(pattern, expr, mutable, _) => mono_definition(
                program,
                cache,
                pattern,
                expr,
                mutable,
                st,
                less,
            ),
            NodeKind::If(condition, then_branch, otherwise) => mono_if(program, cache, id, st, less),
            NodeKind::Match(_, _, _) => (Err(Fault::NoDecisionTree), st),
            NodeKind::TypeDefinition => (Ok(Tree::Literal(Constant::Unit)), st),
            NodeKind::TypeAnnotation(lhs, _) => mono(program, cache, lhs, st, less),
            NodeKind::Import => (Ok(Tree::Literal(Constant::Unit)), st),
            NodeKind::TraitDefinition(_, _) => (Ok(Tree::Literal(Constant::Unit)), st),
            NodeKind::TraitImpl(_, _, _, _) => (Ok(Tree::Literal(Constant::Unit)), st),
            NodeKind::Return(expression) => {
                let (value, st1) = mono(program, cache, expression, st, less);
                match value {
                    Err(fault) => (Err(fault), st),
                    Ok(tree) => (Ok(Tree::Return(Box::new(tree))), st1),
                }
            },
            NodeKind::Sequence(statements) => {
                let (values, st1) = mono_each(program, cache, statements@, st, less);
                match values {
                    Err(fault) => (Err(fault), st),
                    Ok(trees) => (Ok(Tree::Sequence(trees)), st1),
                }
            },
            NodeKind::Extern(_, _) => (Ok(Tree::Literal(Constant::Unit)), st),
            NodeKind::MemberAccess(lhs, field) => {
                if !program.has(lhs) {
                    (Err(Fault::Malformed), st)
                } else {
                    match program.node(lhs).typ {
                        None => (Err(Fault::Malformed), st),
                        Some(typ) => match field_index(field@, typ@, cache, st, RECURSION_LIMIT as nat) {
                            Err(fault) => (Err(fault), st),
                            Ok(index) => {
                                let (value, st1) = mono(program, cache, lhs, st, less);
                                match value {
                                    Err(fault) => (Err(fault), st),
                                    Ok(tree) => match extracted(tree, index) {
                                        Err(fault) => (Err(fault), st),
                                        Ok(field) => (Ok(field), st1),
                                    },
                                }
                            },
                        },
                    }
                }
            },
            NodeKind::Assignment(lhs, rhs) => {
                let (target, st1) = mono(program, cache, lhs, st, less);
                match target {
                    Err(fault) => (Err(fault), st),
                    Ok(tree) => {
                        let address = match tree {
                            Tree::Cast(CastOp::Deref, value, _) => *value,
                            other => other,
                        };
                        let (value, st2) = mono(program, cache, rhs, st1, less);
                        match value {
                            Err(fault) => (Err(fault), st),
                            Ok(assigned) => (Ok(Tree::Assignment(Box::new(address), Box::new(assigned))), st2),
                        }
                    },
                }
            },
        }
    }
}

/// What each of the nodes is lowered to in turn.
#[verifier::opaque]
pub open spec fn mono_each(program: Program, cache: ModuleCache, ids: Seq<AstId>, st: MonoState, fuel: nat) -> (
    Result<Seq<Tree>, Fault>,
    MonoState,
)
    decreases fuel, 1nat, ids.len(),
{
    if ids.len() == 0 {
        (Ok(Seq::empty()), st)
    } else {
        let (first, st1) = mono(program, cache, ids[0], st, fuel);
        match first {
            Err(fault) => (Err(fault), st),
            Ok(tree) => {
                let (rest, st2) = mono_each(program, cache, ids.drop_first(), st1, fuel);
                match rest {
                    Err(fault) => (Err(fault), st),
                    Ok(trees) => (Ok(seq![tree] + trees), st2),
                }
            },
        }
    }
}

/// The use of a lowered definition at a type, and the state after the type was lowered
/// where that takes it.
#[verifier::opaque]
pub open spec fn reference_to(definition: Lowered, typ: Term, cache: ModuleCache, st: MonoState) -> Outcome {
    match definition {
        Lowered::Mutable(_) => {
            let (lowered, memo) = lower(typ, st.memo, st.world(cache), RECURSION_LIMIT as nat);
            match lowered {
                Err(fault) => (Err(fault), st),
                Ok(layout) => (Ok(referenced(definition, layout)), MonoState { memo, ..st }),
            }
        },
        _ => (Ok(referenced(definition, Layout::Tuple(Seq::empty()))), st),
    }
}

/// What a use of a variable is lowered to: the impls chosen at the use are entered, the
/// definition that the use stands for is lowered for the type of the use, and the use is
/// a reference to that.
#[verifier::opaque]
pub open spec fn mono_variable(
    program: Program,
    cache: ModuleCache,
    variable: Variable,
    typ: Option<Type>,
    st: MonoState,
    fuel: nat,
) -> Outcome
    decreases fuel, 7nat, 0nat,
{
    match (variable.id, variable.definition, typ) {
        (Some(id), Some(definition), Some(typ)) => if id.0 >= cache.variable_infos@.len() {
            (Err(Fault::UnknownDefinition(id.0)), st)
        } else if !st.scoped() {
            (Err(Fault::Malformed), st)
        } else {
            match with_required_impls(st.scope(), cache.variable_infos@[id.0 as int].required_impls@, id, cache) {
                Err(fault) => (Err(fault), st),
                Ok(scope) => {
                    let st1 = st.with_scope(scope);
                    let definition_id = match last_with(scope.direct, scope.direct.len(), id) {
                        Some(method) => method,
                        None => definition,
                    };
                    let (lowered, st2) = mono_definition_id(
                        program,
                        cache,
                        definition_id,
                        id,
                        typ@,
                        bindings_model((*variable.instantiation_mapping)@),
                        st1,
                        fuel,
                    );
                    match lowered {
                        Err(fault) => (Err(fault), st),
                        Ok(found) => {
                            let (tree, st3) = reference_to(found, typ@, cache, st2);
                            match tree {
                                Err(fault) => (Err(fault), st),
                                Ok(tree) => (Ok(tree), st3),
                            }
                        },
                    }
                },
            }
        },
        _ => (Err(Fault::Malformed), st),
    }
}

/// What the definition is lowered to for the type: what it was lowered to before, or else
/// what its kind makes of it, under the bindings of the instantiation and in a scope of
/// impls of its own.
#[verifier::opaque]
pub open spec fn mono_definition_id(
    program: Program,
    cache: ModuleCache,
    id: DefinitionInfoId,
    variable_id: VariableId,
    typ: Term,
    mapping: Map<TypeVariableId, Term>,
    st: MonoState,
    fuel: nat,
) -> (Result<Lowered, Fault>, MonoState)
    decreases fuel, 5nat, 0nat,
{
    match chase_all(typ, st.stack, cache.store(), RECURSION_LIMIT as nat) {
        Err(fault) => (Err(fault), st),
        Ok(t) => match defined(st.definitions, st.definitions.len(), id, t) {
            Some(known) => (Ok(known), st),
            None => match bindings_pushed(st.stack, mapping, t, id, cache) {
                Err(fault) => (Err(fault), st),
                Ok(stack) => {
                    let st1 = MonoState { stack, ..st };
                    let info = cache.definition_infos@[id.0 as int];
                    if !st1.scoped() || !traits_entered(
                        info.required_traits@,
                        info.required_traits@.len(),
                        variable_id,
                        st1.scope(),
                        cache,
                    ) {
                        (Err(Fault::Malformed), st)
                    } else {
                        match with_traits(
                            info.required_traits@,
                            info.required_traits@.len(),
                            variable_id,
                            st1.scope(),
                            cache,
                        ) {
                            Err(fault) => (Err(fault), st),
                            Ok(scope) => {
                                let st2 = st1.push_scope(scope);
                                let (value, st3) = mono_by_kind(program, cache, id, t, st2, fuel);
                                match value {
                                    Err(fault) => (Err(fault), st),
                                    Ok(found) => {
                                        let st4 = st3.pop_scope();
                                        (
                                            Ok(found),
                                            MonoState {
                                                stack: bindings_popped(st4.stack, mapping, id, cache),
                                                ..st4
                                            },
                                        )
                                    },
                                }
                            },
                        }
                    }
                },
            },
        },
    }
}

/// One lowering for each definition and type. A definition that the table holds for the
/// type it is used at is not lowered again: the use gets what the table holds, and nothing
/// changes.
pub proof fn lemma_lowered_once(
    program: Program,
    cache: ModuleCache,
    id: DefinitionInfoId,
    variable_id: VariableId,
    typ: Term,
    mapping: Map<TypeVariableId, Term>,
    st: MonoState,
    fuel: nat,
)
    requires
        chase_all(typ, st.stack, cache.store(), RECURSION_LIMIT as nat) is Ok,
        defined(
            st.definitions,
            st.definitions.len(),
            id,
            chase_all(typ, st.stack, cache.store(), RECURSION_LIMIT as nat)->Ok_0,
        ) is Some,
    ensures
        mono_definition_id(program, cache, id, variable_id, typ, mapping, st, fuel) == (
            Ok::<Lowered, Fault>(
                defined(
                    st.definitions,
                    st.definitions.len(),
                    id,
                    chase_all(typ, st.stack, cache.store(), RECURSION_LIMIT as nat)->Ok_0,
                )->Some_0,
            ),
            st,
        ),
{
    reveal(mono_definition_id);
}

/// What the definition is lowered to for the type, by its kind: an ordinary definition
/// is entered in the table under a new id before its right-hand side is lowered, so that
/// the definition may use itself.
#[verifier::opaque]
pub open spec fn mono_by_kind(
    program: Program,
    cache: ModuleCache,
    id: DefinitionInfoId,
    t: Term,
    st: MonoState,
    fuel: nat,
) -> (Result<Lowered, Fault>, MonoState)
    decreases fuel, 4nat, 0nat,
{
    if id.0 >= cache.definition_infos@.len() {
        (Err(Fault::UnknownDefinition(id.0)), st)
    } else {
        match cache.definition_infos@[id.0 as int].definition {
            Some(DefinitionKind::Definition(node)) => match take_id(st) {
                Err(fault) => (Err(fault), st),
                Ok((definition_id, taken)) => {
                    let (lowered, st1) = mono_nonlocal_definition(
                        program,
                        cache,
                        node,
                        definition_id,
                        taken.define(id, t, Lowered::Normal(plain(definition_id))),
                        fuel,
                    );
                    match lowered {
                        Err(fault) => (Err(fault), st),
                        Ok(found) => (Ok(found), st1.define(id, t, found)),
                    }
                },
            },
            Some(DefinitionKind::Extern(_)) => mono_extern(id, t, cache, st),
            Some(DefinitionKind::TypeConstructor(tag)) => mono_constructor(tag, id, t, cache, st),
            _ => (Err(Fault::Malformed), st),
        }
    }
}

/// What a declaration of something defined elsewhere is lowered to. There is one
/// definition for all the types it is used at, which is kept under the unit type.
#[verifier::opaque]
pub open spec fn mono_extern(id: DefinitionInfoId, typ: Term, cache: ModuleCache, st: MonoState) -> (
    Result<Lowered, Fault>,
    MonoState,
) {
    let unit = Term::Primitive(crate::types::PrimitiveType::UnitType);
    match defined(st.definitions, st.definitions.len(), id, unit) {
        Some(known) => (Ok(known), st.define(id, typ, known)),
        None => {
            let (lowered, memo) = lower(typ, st.memo, st.world(cache), RECURSION_LIMIT as nat);
            match lowered {
                Err(fault) => (Err(fault), st),
                Ok(layout) => match take_id(MonoState { memo, ..st }) {
                    Err(fault) => (Err(fault), st),
                    Ok((definition_id, taken)) => {
                        let declaration = Tree::Extern(cache.definition_infos@[id.0 as int].name@, layout);
                        let found = Lowered::Normal(
                            Name {
                                definition: Some(Box::new(Tree::Definition(definition_id, Box::new(declaration)))),
                                definition_id,
                            },
                        );
                        (Ok(found), taken.define(id, typ, found).define(id, unit, found))
                    },
                },
            }
        },
    }
}

/// What a constructor of a user-defined type is lowered to for the type.
#[verifier::opaque]
pub open spec fn mono_constructor(tag: Option<u8>, id: DefinitionInfoId, typ: Term, cache: ModuleCache, st: MonoState) -> (
    Result<Lowered, Fault>,
    MonoState,
) {
    let (lowered, memo) = lower(typ, st.memo, st.world(cache), RECURSION_LIMIT as nat);
    match lowered {
        Err(fault) => (Err(fault), st),
        Ok(layout) => match constructor_tree(tag, layout, st.next_id) {
            Err(fault) => (Err(fault), st),
            Ok((rhs, next_id)) => match constructor_definition(rhs, next_id) {
                Err(fault) => (Err(fault), st),
                Ok((found, after)) => (Ok(found), (MonoState { memo, next_id: after, ..st }).define(id, typ, found)),
            },
        },
    }
}

/// What a definition that is used from elsewhere is lowered to: the definition of a new
/// variable as the lowered right-hand side, followed by what the pattern takes out of
/// it.
#[verifier::opaque]
pub open spec fn mono_nonlocal_definition(
    program: Program,
    cache: ModuleCache,
    node: AstId,
    definition_id: DefinitionId,
    st: MonoState,
    fuel: nat,
) -> (Result<Lowered, Fault>, MonoState)
    decreases fuel, 3nat, 0nat,
{
    if !program.has(node) {
        (Err(Fault::Malformed), st)
    } else {
        match program.node(node).kind {
            NodeKind::Definition(pattern, expr, mutable, _) => {
                let (value, st1) = mono(program, cache, expr, st, fuel);
                match value {
                    Err(fault) => (Err(fault), st),
                    Ok(tree) => {
                        let first = Tree::Definition(definition_id, Box::new(tree));
                        match crate::monomorphise_walk::followed_type(program, cache, pattern, st1) {
                            Err(fault) => (Err(fault), st),
                            Ok(typ) => {
                                let (nested, st2) = desugar(
                                    program,
                                    cache,
                                    pattern,
                                    definition_id,
                                    typ,
                                    mutable,
                                    st1,
                                    fuel,
                                );
                                match nested {
                                    Err(fault) => (Err(fault), st),
                                    Ok(more) => (
                                        Ok(
                                            Lowered::Normal(
                                                Name {
                                                    definition: Some(
                                                        Box::new(one_or_sequence(seq![first] + more)),
                                                    ),
                                                    definition_id,
                                                },
                                            ),
                                        ),
                                        st2,
                                    ),
                                }
                            },
                        }
                    },
                }
            },
            _ => (Err(Fault::Malformed), st),
        }
    }
}

/// The definitions that a pattern stands for, when it is bound to the value of the
/// definition `definition_id` of the given type: a pair takes each of its parts out of
/// the value into a new definition, to which the part of the pattern is bound, and a
/// variable is the definition itself.
#[verifier::opaque]
pub open spec fn desugar(
    program: Program,
    cache: ModuleCache,
    pattern: AstId,
    definition_id: DefinitionId,
    typ: Term,
    mutable: bool,
    st: MonoState,
    fuel: nat,
) -> (Result<Seq<Tree>, Fault>, MonoState)
    decreases fuel, 1nat, 0nat,
{
    if fuel == 0 {
        (Err(Fault::RecursionLimit), st)
    } else if !program.has(pattern) {
        (Err(Fault::Malformed), st)
    } else {
        let less = (fuel - 1) as nat;
        match program.node(pattern).kind {
            NodeKind::Literal(LiteralKind::Unit) => (Ok(Seq::empty()), st),
            NodeKind::Variable(variable) => match variable.definition {
                None => (Err(Fault::Malformed), st),
                Some(id) => (
                    Ok(Seq::empty()),
                    st.define(
                        id,
                        typ,
                        if mutable {
                            Lowered::Mutable(plain(definition_id))
                        } else {
                            Lowered::Normal(plain(definition_id))
                        },
                    ),
                ),
            },
            NodeKind::TypeAnnotation(lhs, annotated) => desugar(
                program,
                cache,
                lhs,
                definition_id,
                typ,
                mutable || annotated,
                st,
                less,
            ),
            NodeKind::FunctionCall(function, args) => if program.pair_constructor(function) {
                desugar_elements(program, cache, args@, 0, definition_id, mutable, 0, st, less)
            } else {
                (Err(Fault::Malformed), st)
            },
            _ => (Err(Fault::Malformed), st),
        }
    }
}

/// The definitions for the parts of a pair pattern from position `at` on, where the
/// parts before take up `offset` bytes.
#[verifier::opaque]
pub open spec fn desugar_elements(
    program: Program,
    cache: ModuleCache,
    args: Seq<AstId>,
    at: nat,
    definition_id: DefinitionId,
    mutable: bool,
    offset: usize,
    st: MonoState,
    fuel: nat,
) -> (Result<Seq<Tree>, Fault>, MonoState)
    decreases fuel, 2nat, args.len() - at,
{
    if at >= args.len() {
        (Ok(Seq::empty()), st)
    } else if at > u32::MAX {
        (Err(Fault::SizeOverflow), st)
    } else {
        match followed_type(program, cache, args[at as int], st) {
            Err(fault) => (Err(fault), st),
            Ok(arg_type) => {
                let value = Tree::Variable(plain(definition_id));
                let part = if mutable {
                    match source_size(arg_type, st.world(cache), RECURSION_LIMIT as nat) {
                        Err(fault) => Err(fault),
                        Ok(size) => if offset + size > usize::MAX {
                            Err(Fault::SizeOverflow)
                        } else {
                            Ok(
                                (
                                    Tree::Offset(
                                        Box::new(value),
                                        Box::new(Tree::Literal(Constant::Integer(offset as u64, IntegerKind::Usz))),
                                        1,
                                    ),
                                    (offset + size) as usize,
                                ),
                            )
                        },
                    }
                } else {
                    Ok((Tree::MemberAccess(Box::new(value), at as u32), offset))
                };
                match part {
                    Err(fault) => (Err(fault), st),
                    Ok((extract, next_offset)) => match take_id(st) {
                        Err(fault) => (Err(fault), st),
                        Ok((id, taken)) => {
                            let definition = Tree::Definition(id, Box::new(extract));
                            let (inner, st1) = desugar(
                                program,
                                cache,
                                args[at as int],
                                id,
                                arg_type,
                                mutable,
                                taken,
                                fuel,
                            );
                            match inner {
                                Err(fault) => (Err(fault), st),
                                Ok(nested) => {
                                    let (rest, st2) = desugar_elements(
                                        program,
                                        cache,
                                        args,
                                        at + 1,
                                        definition_id,
                                        mutable,
                                        next_offset,
                                        st1,
                                        fuel,
                                    );
                                    match rest {
                                        Err(fault) => (Err(fault), st),
                                        Ok(more) => (Ok(seq![definition] + nested + more), st2),
                                    }
                                },
                            }
                        },
                    },
                }
            },
        }
    }
}

/// The parameters of a lambda from position `at` on, each a new variable to which the
/// pattern of the parameter is bound, and the definitions that the patterns stand for.
#[verifier::opaque]
pub open spec fn lambda_parameters(
    program: Program,
    cache: ModuleCache,
    args: Seq<AstId>,
    at: nat,
    st: MonoState,
    fuel: nat,
) -> (Result<(Seq<(Name, bool)>, Seq<Tree>), Fault>, MonoState)
    decreases fuel, 6nat, args.len() - at,
{
    if at >= args.len() {
        (Ok((Seq::empty(), Seq::empty())), st)
    } else {
        match followed_type(program, cache, args[at as int], st) {
            Err(fault) => (Err(fault), st),
            Ok(typ) => match take_id(st) {
                Err(fault) => (Err(fault), st),
                Ok((id, taken)) => match is_mutable_pattern(program, cache, args[at as int]) {
                    Err(fault) => (Err(fault), st),
                    Ok(mutable) => {
                        let (prelude, st1) = desugar(program, cache, args[at as int], id, typ, mutable, taken, fuel);
                        match prelude {
                            Err(fault) => (Err(fault), st),
                            Ok(first) => {
                                let (rest, st2) = lambda_parameters(program, cache, args, at + 1, st1, fuel);
                                match rest {
                                    Err(fault) => (Err(fault), st),
                                    Ok((parameters, more)) => (
                                        Ok((seq![(plain(id), mutable)] + parameters, first + more)),
                                        st2,
                                    ),
                                }
                            },
                        }
                    },
                },
            },
        }
    }
}

/// What stands before the body of a closure for its captured variables from position `at`
/// on: each is a new variable, defined as the field with its number of the environment,
/// which the definition inside the lambda is lowered to.
#[verifier::opaque]
pub open spec fn lambda_captures(
    cache: ModuleCache,
    environment: Seq<ClosureEntry>,
    at: nat,
    parameter: DefinitionId,
    st: MonoState,
) -> (Result<Seq<Tree>, Fault>, MonoState)
    decreases environment.len() - at,
{
    if at >= environment.len() {
        (Ok(Seq::empty()), st)
    } else if at > u32::MAX {
        (Err(Fault::SizeOverflow), st)
    } else {
        let inner = environment[at as int].inner;
        match take_id(st) {
            Err(fault) => (Err(fault), st),
            Ok((id, taken)) => if inner.0 >= cache.definition_infos@.len() {
                (Err(Fault::UnknownDefinition(inner.0)), st)
            } else {
                let info = cache.definition_infos@[inner.0 as int];
                match info.typ {
                    Some(crate::types::GeneralizedType::MonoType(typ)) => match chase_all(
                        typ@,
                        taken.stack,
                        cache.store(),
                        RECURSION_LIMIT as nat,
                    ) {
                        Err(fault) => (Err(fault), st),
                        Ok(followed) => {
                            let (rest, st1) = lambda_captures(
                                cache,
                                environment,
                                at + 1,
                                parameter,
                                taken.define(inner, followed, Lowered::Normal(plain(id))),
                            );
                            match rest {
                                Err(fault) => (Err(fault), st),
                                Ok(more) => (
                                    Ok(
                                        seq![
                                            Tree::Definition(
                                                id,
                                                Box::new(
                                                    Tree::MemberAccess(
                                                        Box::new(Tree::Variable(plain(parameter))),
                                                        at as u32,
                                                    ),
                                                ),
                                            ),
                                        ] + more,
                                    ),
                                    st1,
                                ),
                            }
                        },
                    },
                    _ => (Err(Fault::Malformed), st),
                }
            },
        }
    }
}

/// The parameter for the environment of a closure, and what stands before the body for
/// the captured variables. A lambda that captures nothing has neither.
pub open spec fn environment_parameter(cache: ModuleCache, environment: Seq<ClosureEntry>, st: MonoState) -> (
    Result<(Seq<(Name, bool)>, Seq<Tree>), Fault>,
    MonoState,
) {
    if environment.len() == 0 {
        (Ok((Seq::empty(), Seq::empty())), st)
    } else {
        match take_id(st) {
            Err(fault) => (Err(fault), st),
            Ok((parameter, taken)) => {
                let (captured, st1) = lambda_captures(cache, environment, 0, parameter, taken);
                match captured {
                    Err(fault) => (Err(fault), st),
                    Ok(prelude) => (Ok((seq![(plain(parameter), false)], prelude)), st1),
                }
            },
        }
    }
}

/// The values that a closure captures, from position `at` on: each a use of the captured
/// definition at its type.
#[verifier::opaque]
pub open spec fn closure_values(
    program: Program,
    cache: ModuleCache,
    environment: Seq<ClosureEntry>,
    at: nat,
    st: MonoState,
    fuel: nat,
) -> (Result<Seq<Tree>, Fault>, MonoState)
    decreases fuel, 6nat, environment.len() - at,
{
    if at >= environment.len() {
        (Ok(Seq::empty()), st)
    } else {
        let entry = environment[at as int];
        if entry.outer.0 >= cache.definition_infos@.len() {
            (Err(Fault::UnknownDefinition(entry.outer.0)), st)
        } else {
            match cache.definition_infos@[entry.outer.0 as int].typ {
                Some(crate::types::GeneralizedType::MonoType(typ)) => {
                    let (lowered, st1) = mono_definition_id(
                        program,
                        cache,
                        entry.outer,
                        entry.variable,
                        typ@,
                        bindings_model((*entry.bindings)@),
                        st,
                        fuel,
                    );
                    match lowered {
                        Err(fault) => (Err(fault), st),
                        Ok(found) => {
                            let (tree, st2) = reference_to(found, typ@, cache, st1);
                            match tree {
                                Err(fault) => (Err(fault), st),
                                Ok(value) => {
                                    let (rest, st3) = closure_values(program, cache, environment, at + 1, st2, fuel);
                                    match rest {
                                        Err(fault) => (Err(fault), st),
                                        Ok(values) => (Ok(seq![value] + values), st3),
                                    }
                                },
                            }
                        },
                    }
                },
                _ => (Err(Fault::Malformed), st),
            }
        }
    }
}

/// What a lambda is lowered to: a function; and for a closure the pair of a function,
/// whose last parameter is the environment, and the environment, which is the tuple of
/// the captured values.
#[verifier::opaque]
pub open spec fn mono_lambda(program: Program, cache: ModuleCache, id: AstId, st: MonoState, fuel: nat) -> Outcome
    decreases fuel, 7nat, 0nat,
{
    match program.node(id).kind {
        NodeKind::Lambda(args, body, environment) => match followed_type(program, cache, id, st) {
            Err(fault) => (Err(fault), st),
            Ok(t) => {
                let (function_type, st1) = function_type_of(program, cache, t, args@, st);
                match function_type {
                    Err(fault) => (Err(fault), st),
                    Ok(typ) => {
                        let (bound, st2) = lambda_parameters(program, cache, args@, 0, st1, fuel);
                        match bound {
                            Err(fault) => (Err(fault), st),
                            Ok((parameters, prelude)) => {
                                let (captured, st3) = environment_parameter(cache, environment@, st2);
                                match captured {
                                    Err(fault) => (Err(fault), st),
                                    Ok((more, extracts)) => {
                                        let (lowered, st4) = mono(program, cache, body, st3, fuel);
                                        match lowered {
                                            Err(fault) => (Err(fault), st),
                                            Ok(tree) => {
                                                let whole = if (extracts + prelude).len() == 0 {
                                                    tree
                                                } else {
                                                    Tree::Sequence((extracts + prelude).push(tree))
                                                };
                                                let function = Tree::Lambda(
                                                    parameters + more,
                                                    Box::new(whole),
                                                    typ,
                                                );
                                                if environment@.len() == 0 {
                                                    (Ok(function), st4)
                                                } else {
                                                    let (values, st5) = closure_values(
                                                        program,
                                                        cache,
                                                        environment@,
                                                        0,
                                                        st4,
                                                        fuel,
                                                    );
                                                    match values {
                                                        Err(fault) => (Err(fault), st),
                                                        Ok(found) => (
                                                            Ok(Tree::Tuple(seq![function, Tree::Tuple(found)])),
                                                            st5,
                                                        ),
                                                    }
                                                }
                                            },
                                        }
                                    },
                                }
                            },
                        }
                    },
                }
            },
        },
        _ => (Err(Fault::Malformed), st),
    }
}

/// What a call of an operation of the compiler is lowered to. The first argument names the
/// operation. The size of a type is known by now, and is put in place of its call.
#[verifier::opaque]
pub open spec fn mono_builtin(
    program: Program,
    cache: ModuleCache,
    args: Seq<AstId>,
    result_type: Option<Type>,
    st: MonoState,
    fuel: nat,
) -> Outcome
    decreases fuel, 6nat, 0nat,
{
    if args.len() == 0 || !program.has(args[0]) {
        (Err(Fault::Malformed), st)
    } else {
        match program.node(args[0]).kind {
            NodeKind::Literal(LiteralKind::String(text)) => {
                let name = text@;
                if binary_named(name) is Some {
                    if args.len() < 3 {
                        (Err(Fault::Malformed), st)
                    } else {
                        let (first, st1) = mono(program, cache, args[1], st, fuel);
                        match first {
                            Err(fault) => (Err(fault), st),
                            Ok(lhs) => {
                                let (second, st2) = mono(program, cache, args[2], st1, fuel);
                                match second {
                                    Err(fault) => (Err(fault), st),
                                    Ok(rhs) => (
                                        Ok(Tree::Binary(binary_named(name)->Some_0, Box::new(lhs), Box::new(rhs))),
                                        st2,
                                    ),
                                }
                            },
                        }
                    }
                } else if cast_named(name) is Some {
                    if args.len() < 2 {
                        (Err(Fault::Malformed), st)
                    } else {
                        let (first, st1) = mono(program, cache, args[1], st, fuel);
                        match (first, result_type) {
                            (Ok(lhs), Some(typ)) => {
                                let (lowered, memo) = lower(
                                    typ@,
                                    st1.memo,
                                    st1.world(cache),
                                    RECURSION_LIMIT as nat,
                                );
                                match lowered {
                                    Err(fault) => (Err(fault), st),
                                    Ok(layout) => (
                                        Ok(Tree::Cast(cast_named(name)->Some_0, Box::new(lhs), layout)),
                                        MonoState { memo, ..st1 },
                                    ),
                                }
                            },
                            (Err(fault), _) => (Err(fault), st),
                            (Ok(_), None) => (Err(Fault::Malformed), st),
                        }
                    }
                } else if name == "Offset"@ {
                    if args.len() < 3 {
                        (Err(Fault::Malformed), st)
                    } else {
                        let (first, st1) = mono(program, cache, args[1], st, fuel);
                        match first {
                            Err(fault) => (Err(fault), st),
                            Ok(address) => {
                                let (second, st2) = mono(program, cache, args[2], st1, fuel);
                                match (second, result_type) {
                                    (Ok(count), Some(typ)) => match size_of_argument(typ@, cache, st2) {
                                        Err(fault) => (Err(fault), st),
                                        Ok(size) => (
                                            Ok(Tree::Offset(Box::new(address), Box::new(count), size)),
                                            st2,
                                        ),
                                    },
                                    (Err(fault), _) => (Err(fault), st),
                                    (Ok(_), None) => (Err(Fault::Malformed), st),
                                }
                            },
                        }
                    }
                } else if name == "SizeOf"@ {
                    if args.len() < 2 || !program.has(args[1]) {
                        (Err(Fault::Malformed), st)
                    } else {
                        match program.node(args[1]).typ {
                            None => (Err(Fault::Malformed), st),
                            Some(typ) => match size_of_argument(typ@, cache, st) {
                                Err(fault) => (Err(fault), st),
                                Ok(size) => (Ok(Tree::Literal(Constant::Integer(size as u64, IntegerKind::Usz))), st),
                            },
                        }
                    }
                } else {
                    (Err(Fault::Malformed), st)
                }
            },
            _ => (Err(Fault::Malformed), st),
        }
    }
}

/// Is the node a use of the definition that stands for the operations of the compiler?
pub open spec fn is_builtin(program: Program, function: AstId) -> bool {
    program.has(function) && (program.node(function).kind matches NodeKind::Variable(variable)
        && variable.definition == Some(DefinitionInfoId(BUILTIN_ID)))
}

/// What a call is lowered to. The arguments are lowered before the function. A closure
/// is taken apart into its function and its environment, which is passed as the last
/// argument.
#[verifier::opaque]
pub open spec fn mono_call(program: Program, cache: ModuleCache, id: AstId, st: MonoState, fuel: nat) -> Outcome
    decreases fuel, 7nat, 0nat,
{
    match program.node(id).kind {
        NodeKind::FunctionCall(function, args) => if is_builtin(program, function) {
            mono_builtin(program, cache, args@, program.node(id).typ, st, fuel)
        } else {
            let (lowered_args, st1) = mono_each(program, cache, args@, st, fuel);
            match lowered_args {
                Err(fault) => (Err(fault), st),
                Ok(values) => {
                    let (lowered, st2) = mono(program, cache, function, st1, fuel);
                    match lowered {
                        Err(fault) => (Err(fault), st),
                        Ok(callee) => match (fixed_args(values, callee), program.node(function).typ) {
                            (Ok(fixed), Some(typ)) => {
                                let (function_type, memo) = lower(
                                    typ@,
                                    st2.memo,
                                    st2.world(cache),
                                    RECURSION_LIMIT as nat,
                                );
                                let st3 = MonoState { memo, ..st2 };
                                match function_type {
                                    Err(fault) => (Err(fault), st),
                                    Ok(Layout::Tuple(parts)) => if parts.len() > 0 && parts[0] is Function {
                                        match take_id(st3) {
                                            Err(fault) => (Err(fault), st),
                                            Ok((closure, taken)) => {
                                                let variable = Tree::Variable(plain(closure));
                                                (
                                                    Ok(
                                                        Tree::Sequence(
                                                            seq![
                                                                Tree::Definition(closure, Box::new(callee)),
                                                                Tree::FunctionCall(
                                                                    Box::new(Tree::MemberAccess(Box::new(variable), 0)),
                                                                    fixed.push(Tree::MemberAccess(Box::new(variable), 1)),
                                                                    parts[0],
                                                                ),
                                                            ],
                                                        ),
                                                    ),
                                                    taken,
                                                )
                                            },
                                        }
                                    } else {
                                        (Err(Fault::Malformed), st)
                                    },
                                    Ok(Layout::Function(parameters, return_type, is_varargs)) => (
                                        Ok(
                                            Tree::FunctionCall(
                                                Box::new(callee),
                                                fixed,
                                                Layout::Function(parameters, return_type, is_varargs),
                                            ),
                                        ),
                                        st3,
                                    ),
                                    Ok(_) => (Err(Fault::Malformed), st),
                                }
                            },
                            (Err(fault), _) => (Err(fault), st),
                            (Ok(_), None) => (Err(Fault::Malformed), st),
                        },
                    }
                },
            }
        },
        _ => (Err(Fault::Malformed), st),
    }
}

/// What a definition is lowered to where it stands. A function is passed over: it is
/// lowered when it is used, for the types it is used at. A mutable definition is a place
/// on the stack.
#[verifier::opaque]
pub open spec fn mono_definition(
    program: Program,
    cache: ModuleCache,
    pattern: AstId,
    expr: AstId,
    mutable: bool,
    st: MonoState,
    fuel: nat,
) -> Outcome
    decreases fuel, 7nat, 0nat,
{
    if program.has(expr) && program.node(expr).kind is Lambda {
        (Ok(Tree::Literal(Constant::Unit)), st)
    } else {
        let (lowered, st1) = mono(program, cache, expr, st, fuel);
        match lowered {
            Err(fault) => (Err(fault), st),
            Ok(tree) => {
                let value = if mutable {
                    Tree::StackAlloc(Box::new(tree))
                } else {
                    tree
                };
                match take_id(st1) {
                    Err(fault) => (Err(fault), st),
                    Ok((id, taken)) => match followed_type(program, cache, pattern, taken) {
                        Err(fault) => (Err(fault), st),
                        Ok(typ) => {
                            let (nested, st2) = desugar(program, cache, pattern, id, typ, mutable, taken, fuel);
                            match nested {
                                Err(fault) => (Err(fault), st),
                                Ok(more) => (
                                    Ok(one_or_sequence(seq![Tree::Definition(id, Box::new(value))] + more)),
                                    st2,
                                ),
                            }
                        },
                    },
                }
            },
        }
    }
}

/// What a conditional is lowered to.
#[verifier::opaque]
pub open spec fn mono_if(program: Program, cache: ModuleCache, id: AstId, st: MonoState, fuel: nat) -> Outcome
    decreases fuel, 7nat, 0nat,
{
    match program.node(id).kind {
        NodeKind::If(condition, then_branch, otherwise) => {
            let (first, st1) = mono(program, cache, condition, st, fuel);
            match first {
                Err(fault) => (Err(fault), st),
                Ok(lowered_condition) => {
                    let (second, st2) = mono(program, cache, then_branch, st1, fuel);
                    match second {
                        Err(fault) => (Err(fault), st),
                        Ok(lowered_then) => {
                            let (third, st3) = match otherwise {
                                None => (Ok(None), st2),
                                Some(branch) => {
                                    let (lowered, after) = mono(program, cache, branch, st2, fuel);
                                    match lowered {
                                        Err(fault) => (Err(fault), st),
                                        Ok(tree) => (Ok(Some(Box::new(tree))), after),
                                    }
                                },
                            };
                            match (third, program.node(id).typ) {
                                (Ok(lowered_otherwise), Some(typ)) => {
                                    let (result_type, memo) = lower(
                                        typ@,
                                        st3.memo,
                                        st3.world(cache),
                                        RECURSION_LIMIT as nat,
                                    );
                                    match result_type {
                                        Err(fault) => (Err(fault), st),
                                        Ok(layout) => (
                                            Ok(
                                                Tree::If(
                                                    Box::new(lowered_condition),
                                                    Box::new(lowered_then),
                                                    lowered_otherwise,
                                                    layout,
                                                ),
                                            ),
                                            MonoState { memo, ..st3 },
                                        ),
                                    }
                                },
                                (Err(fault), _) => (Err(fault), st),
                                (Ok(_), None) => (Err(Fault::Malformed), st),
                            }
                        },
                    }
                },
            }
        },
        _ => (Err(Fault::Malformed), st),
    }
}

} // verus!
