//! Building blocks of the intermediate representation: fresh definitions, the size of
//! lowered types, field access, and casts between layouts.
use vstd::prelude::*;
use crate::cache::ModuleCache;
use crate::context::{Context, Definition, Lowered};
use crate::error::Fault;
use crate::hir::{
    function_layout, int_literal, lemma_trees_of_push, names_of, trees_of, Ast, BinaryOp, Builtin,
    CastOp, Constant, DefinitionId, Name, Tree, Variable,
};
use crate::lowering::lower;
use crate::unify::RECURSION_LIMIT;
use crate::hir_types::{layouts_of, ptr_size, size_of, sizes_of, IntegerKind, Layout, PrimitiveType, Type};

verus! {

/// The sum of the sizes of the first fields is at most that of more of them.
pub proof fn lemma_sizes_monotonic(fields: Seq<Layout>, n: nat, m: nat)
    requires
        n <= m <= fields.len(),
    ensures
        sizes_of(fields, n) <= sizes_of(fields, m),
    decreases m,
{
    if n < m {
        lemma_sizes_monotonic(fields, n, (m - 1) as nat);
    }
}

/// A reference to the definition `id`, without the definition itself.
pub open spec fn plain(id: DefinitionId) -> Name {
    Name { definition: None, definition_id: id }
}

impl Context {
    /// A context in which nothing is lowered yet, with one empty scope of impls.
    pub fn new(cache: ModuleCache) -> (context: Context)
        ensures
            context.cache == cache,
            context.monomorphisation_bindings@.len() == 0,
            context.definitions@.len() == 0,
            context.types@.len() == 0,
            context.direct_impl_mappings@.len() == 1 && context.direct_impl_mappings@[0]@.len() == 0,
            context.indirect_impl_mappings@.len() == 1 && context.indirect_impl_mappings@[0]@.len() == 0,
            context.direct_given_impl_mappings@.len() == 1 && context.direct_given_impl_mappings@[0]@.len()
                == 0,
            context.indirect_given_impl_mappings@.len() == 1 && context.indirect_given_impl_mappings@[0]@.len()
                == 0,
            context.next_id == 0,
    {
        let mut direct = Vec::new();
        direct.push(Vec::new());
        let mut indirect = Vec::new();
        indirect.push(Vec::new());
        let mut direct_given = Vec::new();
        direct_given.push(Vec::new());
        let mut indirect_given = Vec::new();
        indirect_given.push(Vec::new());
        Context {
            monomorphisation_bindings: Vec::new(),
            cache,
            definitions: Vec::new(),
            types: Vec::new(),
            direct_impl_mappings: direct,
            indirect_impl_mappings: indirect,
            direct_given_impl_mappings: direct_given,
            indirect_given_impl_mappings: indirect_given,
            next_id: 0,
        }
    }

    /// Do the two contexts differ at most in the id that the next definition gets?
    pub open spec fn same_but_next_id(&self, other: &Context) -> bool {
        &&& self.monomorphisation_bindings == other.monomorphisation_bindings
        &&& self.cache == other.cache
        &&& self.definitions == other.definitions
        &&& self.types == other.types
        &&& self.direct_impl_mappings == other.direct_impl_mappings
        &&& self.indirect_impl_mappings == other.indirect_impl_mappings
        &&& self.direct_given_impl_mappings == other.direct_given_impl_mappings
        &&& self.indirect_given_impl_mappings == other.indirect_given_impl_mappings
    }

    /// An id that no definition of the intermediate representation has yet.
    pub fn next_unique_id(&mut self) -> (result: Result<DefinitionId, Fault>)
        ensures
            final(self).same_but_next_id(old(self)),
            match result {
                Ok(id) => old(self).next_id < usize::MAX && id == DefinitionId(old(self).next_id) && final(self).next_id == old(self).next_id + 1,
                Err(fault) => old(self).next_id == usize::MAX && fault == Fault::OutOfIds && final(self).next_id
                    == old(self).next_id,
            },
    {
        if self.next_id == usize::MAX {
            return Err(Fault::OutOfIds);
        }
        let id = self.next_id;
        self.next_id += 1;
        Ok(DefinitionId(id))
    }

    /// A reference to a new definition.
    pub fn fresh_variable(&mut self) -> (result: Result<Variable, Fault>)
        ensures
            final(self).same_but_next_id(old(self)),
            match result {
                Ok(variable) => old(self).next_id < usize::MAX && variable@ == plain(
                    DefinitionId(old(self).next_id),
                ) && final(self).next_id == old(self).next_id + 1,
                Err(fault) => old(self).next_id == usize::MAX && fault == Fault::OutOfIds && final(self).next_id
                    == old(self).next_id,
            },
    {
        match self.next_unique_id() {
            Err(fault) => Err(fault),
            Ok(definition_id) => Ok(Variable { definition: None, definition_id }),
        }
    }

    /// The definition of a new variable as the given value, and the id of the variable.
    pub fn fresh_definition(&mut self, definition_rhs: Ast) -> (result: Result<(Ast, DefinitionId), Fault>)
        ensures
            final(self).same_but_next_id(old(self)),
            match result {
                Ok((definition, id)) => old(self).next_id < usize::MAX && id == DefinitionId(old(self).next_id)
                    && definition@ == Tree::Definition(id, Box::new(definition_rhs@)) && final(self).next_id
                    == old(self).next_id + 1,
                Err(fault) => old(self).next_id == usize::MAX && fault == Fault::OutOfIds && final(self).next_id
                    == old(self).next_id,
            },
    {
        match self.next_unique_id() {
            Err(fault) => Err(fault),
            Ok(variable) => {
                let expr = Box::new(definition_rhs);
                let definition = Ast::Definition(crate::hir::Definition { variable, expr });
                Ok((definition, variable))
            },
        }
    }

    /// A reference to a new variable, which carries the definition of the variable as the
    /// given value.
    pub fn make_definition(&mut self, definition_rhs: Ast) -> (result: Result<Variable, Fault>)
        ensures
            final(self).same_but_next_id(old(self)),
            match result {
                Ok(variable) => old(self).next_id < usize::MAX && variable@ == (Name {
                    definition: Some(
                        Box::new(Tree::Definition(DefinitionId(old(self).next_id), Box::new(definition_rhs@))),
                    ),
                    definition_id: DefinitionId(old(self).next_id),
                }) && final(self).next_id == old(self).next_id + 1,
                Err(fault) => old(self).next_id == usize::MAX && fault == Fault::OutOfIds && final(self).next_id
                    == old(self).next_id,
            },
    {
        match self.fresh_definition(definition_rhs) {
            Err(fault) => Err(fault),
            Ok((definition, definition_id)) => Ok(
                Variable { definition_id, definition: Some(std::rc::Rc::new(definition)) },
            ),
        }
    }

    /// The tuple of the given values.
    pub fn tuple(&self, fields: Vec<Ast>) -> (tuple: Ast)
        ensures
            tuple@ == Tree::Tuple(trees_of(fields@)),
    {
        Ast::Tuple(fields)
    }

    pub fn sum_monomorphised(&self, fields: &Vec<Type>, upto: usize) -> (result: Result<u32, Fault>)
        requires
            upto <= fields@.len(),
        ensures
            match result {
                Ok(size) => size == sizes_of(layouts_of(fields@), upto as nat),
                Err(fault) => fault == Fault::SizeOverflow && sizes_of(layouts_of(fields@), upto as nat)
                    > u32::MAX,
            },
        decreases fields, 0nat,
    {
        let ghost all = layouts_of(fields@);
        let mut total: u32 = 0;
        let mut i: usize = 0;
        while i < upto
            invariant
                i <= upto <= fields@.len(),
                all == layouts_of(fields@),
                total == sizes_of(all, i as nat),
            decreases upto - i,
        {
            assert(all[i as int] == fields@[i as int]@);
            proof {
                lemma_sizes_monotonic(all, (i + 1) as nat, upto as nat);
            }
            let size = match self.size_of_monomorphised_type(&fields[i]) {
                Err(fault) => {
                    return Err(fault);
                },
                Ok(size) => size,
            };
            total = match total.checked_add(size) {
                None => {
                    return Err(Fault::SizeOverflow);
                },
                Some(sum) => sum,
            };
            i += 1;
        }
        Ok(total)
    }

    /// The size in bytes of a value of the lowered type, where it fits 32 bits.
    pub fn size_of_monomorphised_type(&self, typ: &Type) -> (result: Result<u32, Fault>)
        ensures
            match result {
                Ok(size) => size == size_of(typ@),
                Err(fault) => fault == Fault::SizeOverflow && size_of(typ@) > u32::MAX,
            },
        decreases typ, 1nat,
    {
        match typ {
            Type::Primitive(p) => match p {
                PrimitiveType::Integer(kind) => match kind {
                    IntegerKind::I8 | IntegerKind::U8 => Ok(1),
                    IntegerKind::I16 | IntegerKind::U16 => Ok(2),
                    IntegerKind::I32 | IntegerKind::U32 => Ok(4),
                    IntegerKind::I64 | IntegerKind::U64 => Ok(8),
                    IntegerKind::Isz | IntegerKind::Usz => Ok(ptr_size() as u32),
                },
                PrimitiveType::Float => Ok(8),
                PrimitiveType::Char => Ok(1),
                PrimitiveType::Boolean => Ok(1),
                PrimitiveType::Unit => Ok(1),
                PrimitiveType::Pointer => Ok(ptr_size() as u32),
            },
            Type::Function(_) => Ok(ptr_size() as u32),
            Type::Tuple(fields) => self.sum_monomorphised(fields, fields.len()),
        }
    }
}

/// The field `index` of the value: where the value is loaded from an address, the load of
/// the field from the address moved on by the sizes of the fields before it; else the
/// access of the field.
pub open spec fn extracted(tree: Tree, index: u32) -> Result<Tree, Fault> {
    match tree {
        Tree::Cast(CastOp::Deref, addr, typ) => match typ {
            Layout::Tuple(elems) => if index >= elems.len() {
                Err(Fault::Malformed)
            } else {
                let offset = sizes_of(elems, index as nat);
                if offset > u32::MAX {
                    Err(Fault::SizeOverflow)
                } else if offset == 0 {
                    Ok(Tree::Cast(CastOp::Deref, addr, elems[index as int]))
                } else {
                    Ok(
                        Tree::Cast(
                            CastOp::Deref,
                            Box::new(
                                Tree::Offset(
                                    addr,
                                    Box::new(Tree::Literal(Constant::Integer(offset as u64, IntegerKind::Usz))),
                                    1,
                                ),
                            ),
                            elems[index as int],
                        ),
                    )
                }
            },
            _ => Err(Fault::Malformed),
        },
        other => Ok(Tree::MemberAccess(Box::new(other), index)),
    }
}

/// So many zeros of the given kind.
pub open spec fn zeros(kind: IntegerKind, n: nat) -> Seq<Tree> {
    Seq::new(n, |i: int| Tree::Literal(Constant::Integer(0, kind)))
}

/// Zeros that take up the given number of bytes: as many of 8 bytes as fit, then at most
/// one each of 4, 2 and 1 bytes.
pub open spec fn padding(missing: nat) -> Seq<Tree> {
    zeros(IntegerKind::I64, missing / 8) + zeros(IntegerKind::I32, (missing % 8) / 4) + zeros(
        IntegerKind::I16,
        (missing % 4) / 2,
    ) + zeros(IntegerKind::I8, missing % 2)
}

/// The value, which takes `size` bytes, taken as a value of the type `target`: padded with
/// zeros to the size of the target where it is smaller.
pub open spec fn reinterpreted(tree: Tree, size: u32, target: Layout) -> Result<Tree, Fault> {
    if size_of(target) > u32::MAX {
        Err(Fault::SizeOverflow)
    } else if size > size_of(target) {
        Err(Fault::Malformed)
    } else if size == size_of(target) {
        Ok(Tree::ReinterpretCast(Box::new(tree), target))
    } else {
        Ok(
            Tree::ReinterpretCast(
                Box::new(Tree::Tuple(seq![tree] + padding((size_of(target) - size) as nat))),
                target,
            ),
        )
    }
}

/// Does `result` hold the tree `expected`, or the same fault?
pub open spec fn builds(result: Result<Ast, Fault>, expected: Result<Tree, Fault>) -> bool {
    match result {
        Ok(ast) => expected == Ok::<Tree, Fault>(ast@),
        Err(fault) => expected == Err::<Tree, Fault>(fault),
    }
}

/// Adds zeros of `size` bytes each while `missing` bytes are not filled, and returns how
/// many bytes are left to fill and how many zeros were added.
fn pad_with(padded: &mut Vec<Ast>, kind: IntegerKind, size: u32, missing: u32) -> (left: (u32, Ghost<nat>))
    requires
        size > 0,
    ensures
        left.0 < size,
        missing == left.1@ * size + left.0,
        trees_of(final(padded)@) == trees_of(old(padded)@) + zeros(kind, left.1@),
{
    let mut remaining = missing;
    let ghost mut count: nat = 0;
    assert(trees_of(padded@) + zeros(kind, 0) =~= trees_of(padded@));
    while remaining >= size
        invariant
            size > 0,
            missing == count * size + remaining,
            trees_of(padded@) == trees_of(old(padded)@) + zeros(kind, count),
        decreases remaining,
    {
        let zero = int_literal(0, kind);
        proof {
            lemma_trees_of_push(padded@, zero);
            assert((trees_of(old(padded)@) + zeros(kind, count)).push(zero@) =~= trees_of(old(padded)@) + zeros(
                kind,
                count + 1,
            ));
            assert((count + 1) * size == count * size + size) by (nonlinear_arith);
        }
        padded.push(zero);
        remaining -= size;
        proof {
            count = count + 1;
        }
    }
    (remaining, Ghost(count))
}

impl Context {
    /// The field `member_index` of the value. The load of a value is put off as long as
    /// possible, so that what can be assigned to stays an address.
    pub fn extract(&self, ast: Ast, member_index: u32) -> (result: Result<Ast, Fault>)
        ensures
            builds(result, extracted(ast@, member_index)),
    {
        let ghost original = ast@;
        match ast {
            Ast::Builtin(Builtin::Cast(CastOp::Deref, addr, typ)) => {
                assert(original == Tree::Cast(CastOp::Deref, Box::new(addr@), typ@));
                let ghost target = typ@;
                assert(typ.layout() is Tuple <==> typ is Tuple);
                let mut elems = match typ {
                    Type::Tuple(elems) => {
                        assert(target == Layout::Tuple(layouts_of(elems@)));
                        elems
                    },
                    _ => {
                        return Err(Fault::Malformed);
                    },
                };
                if member_index as usize >= elems.len() {
                    return Err(Fault::Malformed);
                }
                let offset = match self.sum_monomorphised(&elems, member_index as usize) {
                    Err(fault) => {
                        return Err(fault);
                    },
                    Ok(offset) => offset,
                };
                let ghost all = layouts_of(elems@);
                assert(all[member_index as int] == elems@[member_index as int]@);
                let field_type = elems.swap_remove(member_index as usize);
                let ghost address = addr@;
                let ghost field = field_type@;
                if offset == 0 {
                    let load = Ast::Builtin(Builtin::Cast(CastOp::Deref, addr, field_type));
                    assert(load@ == Tree::Cast(CastOp::Deref, Box::new(address), field));
                    Ok(load)
                } else {
                    let offset_int = Box::new(int_literal(offset as u64, IntegerKind::Usz));
                    let offset_ast = Ast::Builtin(Builtin::Offset(addr, offset_int, 1));
                    assert(offset_ast@ == Tree::Offset(
                        Box::new(address),
                        Box::new(Tree::Literal(Constant::Integer(offset as u64, IntegerKind::Usz))),
                        1,
                    ));
                    let load = Ast::Builtin(Builtin::Cast(CastOp::Deref, Box::new(offset_ast), field_type));
                    assert(load@ == Tree::Cast(CastOp::Deref, Box::new(offset_ast@), field));
                    Ok(load)
                }
            },
            other => {
                assert(!(original matches Tree::Cast(CastOp::Deref, _, _)));
                let lhs = Box::new(other);
                Ok(Ast::MemberAccess(lhs, member_index))
            },
        }
    }

    /// A cast of the value to the target type. `arg_type_size` is the size in bytes of the
    /// value, which is not more than that of the target.
    pub fn make_reinterpret_cast(&self, ast: Ast, arg_type_size: u32, target_type: Type) -> (result: Result<
        Ast,
        Fault,
    >)
        requires
            arg_type_size <= size_of(target_type@),
        ensures
            builds(result, reinterpreted(ast@, arg_type_size, target_type@)),
    {
        let target_size = match self.size_of_monomorphised_type(&target_type) {
            Err(fault) => {
                return Err(fault);
            },
            Ok(size) => size,
        };
        if arg_type_size == target_size {
            return Ok(Ast::ReinterpretCast(Box::new(ast), target_type));
        }
        let ghost value = ast@;
        let mut padded: Vec<Ast> = Vec::new();
        padded.push(ast);
        assert(trees_of(padded@) =~= seq![value]);
        let missing = target_size - arg_type_size;
        let (left8, n8) = pad_with(&mut padded, IntegerKind::I64, 8, missing);
        let (left4, n4) = pad_with(&mut padded, IntegerKind::I32, 4, left8);
        let (left2, n2) = pad_with(&mut padded, IntegerKind::I16, 2, left4);
        let (left1, n1) = pad_with(&mut padded, IntegerKind::I8, 1, left2);
        proof {
            assert(n8@ == missing as nat / 8);
            assert(n4@ == (missing as nat % 8) / 4);
            assert(n2@ == (missing as nat % 4) / 2);
            assert(n1@ == missing as nat % 2);
            assert(trees_of(padded@) =~= seq![value] + padding(missing as nat));
        }
        Ok(Ast::ReinterpretCast(Box::new(self.tuple(padded)), target_type))
    }
}

/// The use of a definition at a type: for a macro its value, for a definition a reference
/// to it, and for a mutable one the load of its value from the address that it is.
pub open spec fn referenced(definition: Lowered, layout: Layout) -> Tree {
    match definition {
        Lowered::Macro(tree) => tree,
        Lowered::Normal(name) => Tree::Variable(name),
        Lowered::Mutable(name) => Tree::Cast(CastOp::Deref, Box::new(Tree::Variable(name)), layout),
    }
}

impl Definition {
    /// The use of this definition at the type `typ`.
    pub fn reference(self, context: &mut Context, typ: &crate::types::Type) -> (result: Result<Ast, Fault>)
        ensures
            final(context).same_but_types(old(context)),
            match self@ {
                Lowered::Mutable(name) => {
                    let (lowered, memo) = lower(
                        typ@,
                        old(context).memo(),
                        old(context).world(),
                        RECURSION_LIMIT as nat,
                    );
                    &&& final(context).memo() == memo
                    &&& match lowered {
                        Ok(layout) => result matches Ok(ast) && ast@ == referenced(self@, layout),
                        Err(fault) => result matches Err(f) && f == fault,
                    }
                },
                other => {
                    &&& final(context).memo() == old(context).memo()
                    &&& result matches Ok(ast) && ast@ == referenced(other, Layout::Tuple(Seq::empty()))
                },
            },
    {
        match self {
            Definition::Macro(ast) => Ok(ast),
            Definition::Normal(def) => Ok(Ast::Variable(def)),
            Definition::Mutable(def) => {
                match context.convert_type(typ) {
                    Err(fault) => Err(fault),
                    Ok(typ) => {
                        let address = Ast::Variable(def);
                        assert(address@ == Tree::Variable(def@));
                        Ok(Ast::Builtin(Builtin::Cast(CastOp::Deref, Box::new(address), typ)))
                    },
                }
            },
        }
    }
}

impl From<DefinitionId> for Definition {
    fn from(id: DefinitionId) -> (definition: Definition) {
        Definition::Normal(Variable { definition: None, definition_id: id })
    }
}

impl vstd::std_specs::convert::FromSpecImpl<DefinitionId> for Definition {
    open spec fn obeys_from_spec() -> bool {
        true
    }

    open spec fn from_spec(id: DefinitionId) -> Definition {
        Definition::Normal(Variable { definition: None, definition_id: id })
    }
}

/// A reference to the definition `id`.
pub fn variable_of(id: DefinitionId) -> (ast: Ast)
    ensures
        ast@ == Tree::Variable(plain(id)),
{
    let variable = Variable { definition: None, definition_id: id };
    assert(variable@ == plain(id));
    Ast::Variable(variable)
}

/// A reference to what the variable refers to.
pub fn reference_of(variable: Variable) -> (ast: Ast)
    ensures
        ast@ == Tree::Variable(variable@),
{
    Ast::Variable(variable)
}

/// The definition of the variable `id` as the value.
pub fn definition_of(id: DefinitionId, expr: Ast) -> (ast: Ast)
    ensures
        ast@ == Tree::Definition(id, Box::new(expr@)),
{
    Ast::Definition(crate::hir::Definition { variable: id, expr: Box::new(expr) })
}

/// The statements one after the other.
pub fn sequence_of(statements: Vec<Ast>) -> (ast: Ast)
    ensures
        ast@ == Tree::Sequence(trees_of(statements@)),
{
    Ast::Sequence(statements)
}

/// The field `index` of the value.
pub fn member_of(lhs: Ast, index: u32) -> (ast: Ast)
    ensures
        ast@ == Tree::MemberAccess(Box::new(lhs@), index),
{
    Ast::MemberAccess(Box::new(lhs), index)
}

/// The return of the value.
pub fn return_of(expression: Ast) -> (ast: Ast)
    ensures
        ast@ == Tree::Return(Box::new(expression@)),
{
    Ast::Return(Box::new(expression))
}

/// The assignment of the value to the place.
pub fn assignment_of(lhs: Ast, rhs: Ast) -> (ast: Ast)
    ensures
        ast@ == Tree::Assignment(Box::new(lhs@), Box::new(rhs@)),
{
    Ast::Assignment(Box::new(lhs), Box::new(rhs))
}

/// A place on the stack that holds the value.
pub fn stack_alloc_of(value: Ast) -> (ast: Ast)
    ensures
        ast@ == Tree::StackAlloc(Box::new(value@)),
{
    Ast::Builtin(Builtin::StackAlloc(Box::new(value)))
}

/// The operation on the two operands.
pub fn binary_of(op: BinaryOp, lhs: Ast, rhs: Ast) -> (ast: Ast)
    ensures
        ast@ == Tree::Binary(op, Box::new(lhs@), Box::new(rhs@)),
{
    Ast::Builtin(Builtin::Binary(op, Box::new(lhs), Box::new(rhs)))
}

/// The operation that takes the operand to the type.
pub fn cast_of(op: CastOp, lhs: Ast, typ: Type) -> (ast: Ast)
    ensures
        ast@ == Tree::Cast(op, Box::new(lhs@), typ@),
{
    Ast::Builtin(Builtin::Cast(op, Box::new(lhs), typ))
}

/// The address moved on by so many elements of the size.
pub fn offset_of(address: Ast, count: Ast, size: u32) -> (ast: Ast)
    ensures
        ast@ == Tree::Offset(Box::new(address@), Box::new(count@), size),
{
    Ast::Builtin(Builtin::Offset(Box::new(address), Box::new(count), size))
}

/// The function with the parameters and the body.
pub fn lambda_of(args: Vec<(Variable, bool)>, body: Ast, typ: crate::hir_types::FunctionType) -> (ast: Ast)
    ensures
        ast@ == Tree::Lambda(names_of(args@), Box::new(body@), function_layout(typ)),
{
    Ast::Lambda(crate::hir::Lambda { args, body: Box::new(body), typ })
}

/// The call of the function with the arguments.
pub fn call_of(function: Ast, args: Vec<Ast>, function_type: crate::hir_types::FunctionType) -> (ast: Ast)
    ensures
        ast@ == Tree::FunctionCall(Box::new(function@), trees_of(args@), function_layout(function_type)),
{
    Ast::FunctionCall(crate::hir::FunctionCall { function: Box::new(function), args, function_type })
}

/// The model of a branch that may be missing.
pub open spec fn branch_of(branch: Option<Ast>) -> Option<Box<Tree>> {
    match branch {
        None => None,
        Some(ast) => Some(Box::new(ast@)),
    }
}

/// The conditional.
pub fn if_of(condition: Ast, then_branch: Ast, otherwise: Option<Ast>, result_type: Type) -> (ast: Ast)
    ensures
        ast@ == Tree::If(Box::new(condition@), Box::new(then_branch@), branch_of(otherwise), result_type@),
{
    let otherwise = match otherwise {
        None => None,
        Some(branch) => Some(Box::new(branch)),
    };
    Ast::If(
        crate::hir::If {
            condition: Box::new(condition),
            then_branch: Box::new(then_branch),
            otherwise,
            result_type,
        },
    )
}

/// The declaration of something defined elsewhere.
pub fn extern_of(name: String, typ: Type) -> (ast: Ast)
    ensures
        ast@ == Tree::Extern(name@, typ@),
{
    Ast::Extern(crate::hir::Extern { name, typ })
}

/// A reference to the definition `id` that carries the definition.
pub fn global_of(id: DefinitionId, definition: Ast) -> (variable: Variable)
    ensures
        variable@ == (Name { definition: Some(Box::new(definition@)), definition_id: id }),
{
    Variable { definition_id: id, definition: Some(std::rc::Rc::new(definition)) }
}

} // verus!
