//! What monomorphisation makes of a program, as a function of the program, the cache and
//! the state before.
//!
//! The pass is driven by demand. A use of a definition at a concrete type looks the pair up
//! among the definitions lowered so far; where it is new, the definition is lowered for
//! that type, under the bindings of the instantiation and the impls chosen at the use.
use vstd::prelude::*;
use crate::ast::{LiteralKind, NodeKind, Program, Variable};
use crate::cache::{ModuleCache, Shape};
use crate::context::{chase_all, chase_shallow, Lowered};
use crate::emit::{plain, reinterpreted};
use crate::error::Fault;
use crate::hir::{BinaryOp, CastOp, Constant, DefinitionId, Name, Tree};
use crate::hir_types::{sizes_of, IntegerKind, Layout, PrimitiveType};
use crate::layout::{integer_kind, source_size};
use crate::lowering::lower;
use crate::mono_state::{defined, MonoState};
use crate::sequence::after;
use crate::types::{AstId, Term};
use crate::unify::RECURSION_LIMIT;

verus! {

/// A tree, or why there is none, and the state after.
pub type Outcome = (Result<Tree, Fault>, MonoState);

/// The number of bytes of a text.
pub open spec fn byte_count(text: Seq<char>) -> usize {
    vstd::utf8::encode_utf8(text).len() as usize
}

/// What a literal is lowered to. A string is the pair of its characters and its length in
/// bytes.
#[verifier::opaque]
pub open spec fn mono_literal(kind: LiteralKind, cache: ModuleCache, st: MonoState) -> Result<Tree, Fault> {
    match kind {
        LiteralKind::Integer(n, kind) => match integer_kind(kind, st.world(cache), RECURSION_LIMIT as nat) {
            Err(fault) => Err(fault),
            Ok(found) => Ok(Tree::Literal(Constant::Integer(n, found))),
        },
        LiteralKind::Float(bits) => Ok(Tree::Literal(Constant::Float(bits))),
        LiteralKind::String(text) => Ok(
            Tree::Tuple(
                seq![
                    Tree::Literal(Constant::CString(text@)),
                    Tree::Literal(Constant::Integer(byte_count(text@) as u64, IntegerKind::Usz)),
                ],
            ),
        ),
        LiteralKind::Char(c) => Ok(Tree::Literal(Constant::Char(c))),
        LiteralKind::Bool(b) => Ok(Tree::Literal(Constant::Bool(b))),
        LiteralKind::Unit => Ok(Tree::Literal(Constant::Unit)),
    }
}

/// The state with the id that the next definition gets taken, where there is one left.
pub open spec fn take_id(st: MonoState) -> Result<(DefinitionId, MonoState), Fault> {
    if st.next_id == usize::MAX {
        Err(Fault::OutOfIds)
    } else {
        Ok((DefinitionId(st.next_id), MonoState { next_id: (st.next_id + 1) as usize, ..st }))
    }
}

/// Is the pattern one for something mutable: an annotation that says so, or a variable
/// whose definition is?
#[verifier::opaque]
pub open spec fn is_mutable_pattern(program: Program, cache: ModuleCache, pattern: AstId) -> Result<bool, Fault> {
    if !program.has(pattern) {
        Err(Fault::Malformed)
    } else {
        match program.node(pattern).kind {
            NodeKind::TypeAnnotation(_, mutable) => Ok(mutable),
            NodeKind::Variable(variable) => match variable.definition {
                None => Err(Fault::Malformed),
                Some(definition) => if definition.0 >= cache.definition_infos@.len() {
                    Err(Fault::UnknownDefinition(definition.0))
                } else {
                    Ok(cache.definition_infos@[definition.0 as int].mutable)
                },
            },
            _ => Ok(false),
        }
    }
}

/// The parameters of a function type, where each of the first `n` whose argument is a
/// mutable pattern has become a pointer.
pub open spec fn pointers_for_mutable(
    program: Program,
    cache: ModuleCache,
    parameters: Seq<Layout>,
    args: Seq<AstId>,
    n: nat,
) -> Result<Seq<Layout>, Fault>
    decreases n,
{
    if n == 0 || n > args.len() || n > parameters.len() {
        Ok(parameters)
    } else {
        match pointers_for_mutable(program, cache, parameters, args, (n - 1) as nat) {
            Err(fault) => Err(fault),
            Ok(before) => match is_mutable_pattern(program, cache, args[n - 1]) {
                Err(fault) => Err(fault),
                Ok(true) => Ok(before.update(n - 1, Layout::Primitive(PrimitiveType::Pointer))),
                Ok(false) => Ok(before),
            },
        }
    }
}

/// The type of the function that a lambda with the given parameters is lowered to: the
/// lowered type, or for a closure its first part, with a pointer for each mutable
/// parameter.
#[verifier::opaque]
pub open spec fn function_type_of(
    program: Program,
    cache: ModuleCache,
    typ: Term,
    args: Seq<AstId>,
    st: MonoState,
) -> (Result<Layout, Fault>, MonoState) {
    let (lowered, memo) = lower(typ, st.memo, st.world(cache), RECURSION_LIMIT as nat);
    let st1 = MonoState { memo, ..st };
    match lowered {
        Err(fault) => (Err(fault), st),
        Ok(layout) => {
            let function = match layout {
                Layout::Function(_, _, _) => Ok(layout),
                Layout::Tuple(values) => if values.len() > 0 && values[0] is Function {
                    Ok(values[0])
                } else {
                    Err(Fault::Malformed)
                },
                _ => Err(Fault::Malformed),
            };
            match function {
                Err(fault) => (Err(fault), st),
                Ok(Layout::Function(parameters, return_type, is_varargs)) => if parameters.len() < args.len() {
                    (Err(Fault::Malformed), st)
                } else {
                    match pointers_for_mutable(program, cache, parameters, args, args.len()) {
                        Err(fault) => (Err(fault), st),
                        Ok(changed) => (Ok(Layout::Function(changed, return_type, is_varargs)), st1),
                    }
                },
                Ok(_) => (Err(Fault::Malformed), st),
            }
        },
    }
}

/// The parameters of the function that the value is, as far as the tree shows them.
pub open spec fn function_args(function: Tree) -> Result<Seq<(Name, bool)>, Fault>
    decreases function,
{
    match function {
        Tree::Variable(name) => match name.definition {
            Some(definition) => function_args(*definition),
            None => Ok(Seq::empty()),
        },
        Tree::Lambda(args, _, _) => Ok(args),
        Tree::Sequence(statements) => if statements.len() == 0 {
            Err(Fault::Malformed)
        } else {
            function_args(statements[statements.len() - 1])
        },
        Tree::Definition(_, expr) => function_args(*expr),
        _ => Ok(Seq::empty()),
    }
}

/// The first `n` arguments of a call, where each that is passed for a mutable parameter,
/// and so is a load from an address, has become the address.
pub open spec fn addresses_for_mutable(args: Seq<Tree>, expected: Seq<(Name, bool)>, n: nat) -> Result<
    Seq<Tree>,
    Fault,
>
    decreases n,
{
    if n == 0 || n > args.len() || n > expected.len() {
        Ok(args)
    } else {
        match addresses_for_mutable(args, expected, (n - 1) as nat) {
            Err(fault) => Err(fault),
            Ok(before) => if expected[n - 1].1 {
                match args[n - 1] {
                    Tree::Cast(CastOp::Deref, inner, _) => Ok(before.update(n - 1, *inner)),
                    _ => Err(Fault::Malformed),
                }
            } else {
                Ok(before)
            },
        }
    }
}

/// The lesser of two lengths.
pub open spec fn least(a: nat, b: nat) -> nat {
    if a <= b {
        a
    } else {
        b
    }
}

/// The arguments of a call as the function takes them.
#[verifier::opaque]
pub open spec fn fixed_args(args: Seq<Tree>, function: Tree) -> Result<Seq<Tree>, Fault> {
    match function_args(function) {
        Err(fault) => Err(fault),
        Ok(expected) => addresses_for_mutable(args, expected, least(args.len(), expected.len())),
    }
}

/// The operation on two operands with the name.
#[verifier::opaque]
pub open spec fn binary_named(name: Seq<char>) -> Option<BinaryOp> {
    if name == "AddInt"@ {
        Some(BinaryOp::AddInt)
    } else if name == "AddFloat"@ {
        Some(BinaryOp::AddFloat)
    } else if name == "SubInt"@ {
        Some(BinaryOp::SubInt)
    } else if name == "SubFloat"@ {
        Some(BinaryOp::SubFloat)
    } else if name == "MulInt"@ {
        Some(BinaryOp::MulInt)
    } else if name == "MulFloat"@ {
        Some(BinaryOp::MulFloat)
    } else if name == "DivSigned"@ {
        Some(BinaryOp::DivSigned)
    } else if name == "DivUnsigned"@ {
        Some(BinaryOp::DivUnsigned)
    } else if name == "DivFloat"@ {
        Some(BinaryOp::DivFloat)
    } else if name == "ModSigned"@ {
        Some(BinaryOp::ModSigned)
    } else if name == "ModUnsigned"@ {
        Some(BinaryOp::ModUnsigned)
    } else if name == "ModFloat"@ {
        Some(BinaryOp::ModFloat)
    } else if name == "LessSigned"@ {
        Some(BinaryOp::LessSigned)
    } else if name == "LessUnsigned"@ {
        Some(BinaryOp::LessUnsigned)
    } else if name == "LessFloat"@ {
        Some(BinaryOp::LessFloat)
    } else if name == "EqInt"@ {
        Some(BinaryOp::EqInt)
    } else if name == "EqFloat"@ {
        Some(BinaryOp::EqFloat)
    } else if name == "EqChar"@ {
        Some(BinaryOp::EqChar)
    } else if name == "EqBool"@ {
        Some(BinaryOp::EqBool)
    } else {
        None
    }
}

/// The operation to a type with the name.
#[verifier::opaque]
pub open spec fn cast_named(name: Seq<char>) -> Option<CastOp> {
    if name == "SignExtend"@ {
        Some(CastOp::SignExtend)
    } else if name == "ZeroExtend"@ {
        Some(CastOp::ZeroExtend)
    } else if name == "SignedToFloat"@ {
        Some(CastOp::SignedToFloat)
    } else if name == "UnsignedToFloat"@ {
        Some(CastOp::UnsignedToFloat)
    } else if name == "FloatToSigned"@ {
        Some(CastOp::FloatToSigned)
    } else if name == "FloatToUnsigned"@ {
        Some(CastOp::FloatToUnsigned)
    } else if name == "Truncate"@ {
        Some(CastOp::Truncate)
    } else if name == "Deref"@ {
        Some(CastOp::Deref)
    } else if name == "Transmute"@ {
        Some(CastOp::Transmute)
    } else {
        None
    }
}

/// The size in bytes of the one argument that the type is applied to.
#[verifier::opaque]
pub open spec fn size_of_argument(typ: Term, cache: ModuleCache, st: MonoState) -> Result<u32, Fault> {
    match chase_all(typ, st.stack, cache.store(), RECURSION_LIMIT as nat) {
        Err(fault) => Err(fault),
        Ok(Term::TypeApplication(_, args)) => if args.len() != 1 {
            Err(Fault::Malformed)
        } else {
            match source_size(args[0], st.world(cache), RECURSION_LIMIT as nat) {
                Err(fault) => Err(fault),
                Ok(size) => if size > u32::MAX {
                    Err(Fault::SizeOverflow)
                } else {
                    Ok(size as u32)
                },
            }
        },
        Ok(_) => Err(Fault::Malformed),
    }
}

/// The position of the field with the name among the first `n` fields of a struct.
pub open spec fn field_position(fields: Seq<(Seq<char>, Term)>, name: Seq<char>, from: nat) -> Option<nat>
    decreases fields.len() - from,
{
    if from >= fields.len() {
        None
    } else if fields[from as int].0 == name {
        Some(from)
    } else {
        field_position(fields, name, from + 1)
    }
}

/// The index of the field with the name in what the type is: a struct, maybe applied to
/// arguments.
#[verifier::opaque]
pub open spec fn field_index(name: Seq<char>, typ: Term, cache: ModuleCache, st: MonoState, fuel: nat) -> Result<
    u32,
    Fault,
>
    decreases fuel,
{
    match chase_shallow(typ, st.stack, cache.store()) {
        Err(fault) => Err(fault),
        Ok(Ok(Term::UserDefined(id))) => if id.0 >= cache.type_infos@.len() {
            Err(Fault::UnknownType(id.0))
        } else {
            match cache.type_infos@[id.0 as int]@.body {
                Shape::Struct(fields) => match field_position(fields, name, 0) {
                    Some(at) => if at > u32::MAX {
                        Err(Fault::SizeOverflow)
                    } else {
                        Ok(at as u32)
                    },
                    None => Err(Fault::Malformed),
                },
                _ => Err(Fault::Malformed),
            }
        },
        Ok(Ok(Term::TypeApplication(constructor, _))) => if fuel == 0 {
            Err(Fault::RecursionLimit)
        } else {
            field_index(name, *constructor, cache, st, (fuel - 1) as nat)
        },
        Ok(_) => Err(Fault::Malformed),
    }
}

/// The parameters with the ids from `first` on, none of them mutable.
pub open spec fn parameters_from(first: usize, n: nat) -> Seq<(Name, bool)> {
    Seq::new(n, |i: int| (plain(DefinitionId((first + i) as usize)), false))
}

/// What a constructor of a user-defined type is lowered to, for the lowered type of the
/// constructor, and the id that the next definition gets after it.
///
/// A constructor with fields is a function that puts its arguments in a tuple, behind the
/// tag where the type is a sum type, and takes the tuple as a value of the type. One
/// without fields is the tag taken as a value of the type, or for a struct the unit value.
#[verifier::opaque]
pub open spec fn constructor_tree(tag: Option<u8>, layout: Layout, next_id: usize) -> Result<(Tree, usize), Fault> {
    match layout {
        Layout::Function(parameters, return_type, is_varargs) => if next_id + parameters.len() > usize::MAX {
            Err(Fault::OutOfIds)
        } else {
            let args = parameters_from(next_id, parameters.len());
            let values = Seq::new(parameters.len(), |i: int| Tree::Variable(args[i].0));
            let size = sizes_of(parameters, parameters.len());
            if size > u32::MAX {
                Err(Fault::SizeOverflow)
            } else {
                match tag {
                    None => Ok(
                        (
                            Tree::Lambda(args, Box::new(Tree::Tuple(values)), layout),
                            (next_id + parameters.len()) as usize,
                        ),
                    ),
                    Some(tag) => if size + 1 > u32::MAX {
                        Err(Fault::SizeOverflow)
                    } else {
                        match reinterpreted(
                            Tree::Tuple(
                                seq![Tree::Literal(Constant::Integer(tag as u64, IntegerKind::U8))] + values,
                            ),
                            (size + 1) as u32,
                            *return_type,
                        ) {
                            Err(fault) => Err(fault),
                            Ok(body) => Ok(
                                (
                                    Tree::Lambda(args, Box::new(body), layout),
                                    (next_id + parameters.len()) as usize,
                                ),
                            ),
                        }
                    },
                }
            }
        },
        Layout::Tuple(_) => match tag {
            None => Ok((Tree::Literal(Constant::Unit), next_id)),
            Some(tag) => match reinterpreted(
                Tree::Literal(Constant::Integer(tag as u64, IntegerKind::U8)),
                1,
                layout,
            ) {
                Err(fault) => Err(fault),
                Ok(tree) => Ok((tree, next_id)),
            },
        },
        Layout::Primitive(_) => Err(Fault::Malformed),
    }
}

/// What the definition of a constructor becomes: a global definition where the
/// constructor is a function, else a macro.
#[verifier::opaque]
pub open spec fn constructor_definition(rhs: Tree, next_id: usize) -> Result<(Lowered, usize), Fault> {
    if rhs is Lambda {
        if next_id == usize::MAX {
            Err(Fault::OutOfIds)
        } else {
            Ok(
                (
                    Lowered::Normal(
                        Name {
                            definition: Some(Box::new(Tree::Definition(DefinitionId(next_id), Box::new(rhs)))),
                            definition_id: DefinitionId(next_id),
                        },
                    ),
                    (next_id + 1) as usize,
                ),
            )
        }
    } else {
        Ok((Lowered::Macro(rhs), next_id))
    }
}

/// The one statement, or the sequence of the statements where there are more.
pub open spec fn one_or_sequence(statements: Seq<Tree>) -> Tree {
    if statements.len() == 1 {
        statements[0]
    } else {
        Tree::Sequence(statements)
    }
}

} // verus!
