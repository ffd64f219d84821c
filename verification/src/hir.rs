//! The intermediate representation: a tree without generics and without traits, in which
//! every name is a definition id and every type is made of primitives, functions and
//! tuples.
use vstd::prelude::*;
use std::rc::Rc;
use crate::hir_types::{layouts_of, FunctionType, IntegerKind, Layout, Type};

verus! {

/// Identifies a definition of the intermediate representation.
#[derive(Clone, Copy, Debug, PartialEq, Eq, Hash, Structural)]
pub struct DefinitionId(pub usize);

#[derive(Debug)]
pub enum Literal {
    Integer(u64, IntegerKind),
    /// The bits of the number.
    Float(u64),
    CString(String),
    Char(char),
    Bool(bool),
    Unit,
}

/// The model of a [`Literal`].
pub enum Constant {
    Integer(u64, IntegerKind),
    Float(u64),
    CString(Seq<char>),
    Char(char),
    Bool(bool),
    Unit,
}

impl View for Literal {
    type V = Constant;

    open spec fn view(&self) -> Constant {
        match self {
            Literal::Integer(value, kind) => Constant::Integer(*value, *kind),
            Literal::Float(bits) => Constant::Float(*bits),
            Literal::CString(text) => Constant::CString(text@),
            Literal::Char(c) => Constant::Char(*c),
            Literal::Bool(b) => Constant::Bool(*b),
            Literal::Unit => Constant::Unit,
        }
    }
}

impl Clone for Literal {
    fn clone(&self) -> (copy: Literal)
        ensures
            copy@ == self@,
    {
        match self {
            Literal::Integer(value, kind) => Literal::Integer(*value, *kind),
            Literal::Float(bits) => Literal::Float(*bits),
            Literal::CString(text) => Literal::CString(text.clone()),
            Literal::Char(c) => Literal::Char(*c),
            Literal::Bool(b) => Literal::Bool(*b),
            Literal::Unit => Literal::Unit,
        }
    }
}

/// The operations on two operands that the back end provides.
#[derive(Clone, Copy, Debug, PartialEq, Eq, Hash, Structural)]
pub enum BinaryOp {
    AddInt,
    AddFloat,
    SubInt,
    SubFloat,
    MulInt,
    MulFloat,
    DivSigned,
    DivUnsigned,
    DivFloat,
    ModSigned,
    ModUnsigned,
    ModFloat,
    LessSigned,
    LessUnsigned,
    LessFloat,
    EqInt,
    EqFloat,
    EqChar,
    EqBool,
}

/// The operations that take an operand to a value of a given type.
#[derive(Clone, Copy, Debug, PartialEq, Eq, Hash, Structural)]
pub enum CastOp {
    SignExtend,
    ZeroExtend,
    SignedToFloat,
    UnsignedToFloat,
    FloatToSigned,
    FloatToUnsigned,
    Truncate,
    Deref,
    Transmute,
}

#[derive(Debug)]
pub enum Builtin {
    Binary(BinaryOp, Box<Ast>, Box<Ast>),
    Cast(CastOp, Box<Ast>, Type),
    /// The address, the number of elements to move it by, and the size of an element in
    /// bytes.
    Offset(Box<Ast>, Box<Ast>, u32),
    StackAlloc(Box<Ast>),
}

/// A reference to a definition, together with the definition where it is a global one
/// that the back end may have to emit first.
#[derive(Debug)]
pub struct Variable {
    pub definition: Option<Rc<Ast>>,
    pub definition_id: DefinitionId,
}

pub type DefinitionInfo = Variable;

#[derive(Debug)]
pub struct Lambda {
    /// The parameters, each with the flag that says whether it is mutable.
    pub args: Vec<(Variable, bool)>,
    pub body: Box<Ast>,
    pub typ: FunctionType,
}

#[derive(Debug)]
pub struct FunctionCall {
    pub function: Box<Ast>,
    pub args: Vec<Ast>,
    pub function_type: FunctionType,
}

#[derive(Debug)]
pub struct Definition {
    pub variable: DefinitionId,
    pub expr: Box<Ast>,
}

#[derive(Debug)]
pub struct If {
    pub condition: Box<Ast>,
    pub then_branch: Box<Ast>,
    pub otherwise: Option<Box<Ast>>,
    pub result_type: Type,
}

#[derive(Debug)]
pub struct Extern {
    pub name: String,
    pub typ: Type,
}

#[derive(Debug)]
pub enum Ast {
    Literal(Literal),
    Variable(Variable),
    Lambda(Lambda),
    FunctionCall(FunctionCall),
    Definition(Definition),
    If(If),
    Return(Box<Ast>),
    Sequence(Vec<Ast>),
    Extern(Extern),
    Assignment(Box<Ast>, Box<Ast>),
    /// The value and the index of the field.
    MemberAccess(Box<Ast>, u32),
    Tuple(Vec<Ast>),
    /// The value and the type to take its bytes as.
    ReinterpretCast(Box<Ast>, Type),
    Builtin(Builtin),
}

/// The model of a [`Variable`].
pub struct Name {
    pub definition: Option<Box<Tree>>,
    pub definition_id: DefinitionId,
}

/// The model of an [`Ast`].
pub enum Tree {
    Literal(Constant),
    Variable(Name),
    /// Parameters with their mutability, body, type.
    Lambda(Seq<(Name, bool)>, Box<Tree>, Layout),
    /// Function, arguments, type of the function.
    FunctionCall(Box<Tree>, Seq<Tree>, Layout),
    Definition(DefinitionId, Box<Tree>),
    If(Box<Tree>, Box<Tree>, Option<Box<Tree>>, Layout),
    Return(Box<Tree>),
    Sequence(Seq<Tree>),
    Extern(Seq<char>, Layout),
    Assignment(Box<Tree>, Box<Tree>),
    MemberAccess(Box<Tree>, u32),
    Tuple(Seq<Tree>),
    ReinterpretCast(Box<Tree>, Layout),
    Binary(BinaryOp, Box<Tree>, Box<Tree>),
    Cast(CastOp, Box<Tree>, Layout),
    Offset(Box<Tree>, Box<Tree>, u32),
    StackAlloc(Box<Tree>),
}

/// The model of a function type, as a type.
pub open spec fn function_layout(f: FunctionType) -> Layout {
    Layout::Function(layouts_of(f.parameters@), Box::new(f.return_type@), f.is_varargs)
}

/// The models of a list of trees, in order.
pub open spec fn trees_of(nodes: Seq<Ast>) -> Seq<Tree>
    decreases nodes,
{
    Seq::new(
        nodes.len(),
        |i: int|
            if 0 <= i < nodes.len() {
                nodes[i].tree()
            } else {
                Tree::Literal(Constant::Unit)
            },
    )
}

/// The models of a list of parameters, in order.
pub open spec fn names_of(args: Seq<(Variable, bool)>) -> Seq<(Name, bool)>
    decreases args,
{
    Seq::new(
        args.len(),
        |i: int|
            if 0 <= i < args.len() {
                (args[i].0.name(), args[i].1)
            } else {
                (Name { definition: None, definition_id: DefinitionId(0) }, false)
            },
    )
}

impl Variable {
    /// The model of this variable.
    pub open spec fn name(&self) -> Name
        decreases self,
    {
        Name {
            definition: match self.definition {
                None => None,
                Some(definition) => Some(Box::new((*definition).tree())),
            },
            definition_id: self.definition_id,
        }
    }
}

impl View for Variable {
    type V = Name;

    open spec fn view(&self) -> Name {
        self.name()
    }
}

impl Ast {
    /// The model of this tree.
    pub open spec fn tree(&self) -> Tree
        decreases self,
    {
        match self {
            Ast::Literal(literal) => Tree::Literal(literal@),
            Ast::Variable(variable) => Tree::Variable(variable.name()),
            Ast::Lambda(lambda) => Tree::Lambda(
                names_of(lambda.args@),
                Box::new((*lambda.body).tree()),
                function_layout(lambda.typ),
            ),
            Ast::FunctionCall(call) => Tree::FunctionCall(
                Box::new((*call.function).tree()),
                trees_of(call.args@),
                function_layout(call.function_type),
            ),
            Ast::Definition(definition) => Tree::Definition(
                definition.variable,
                Box::new((*definition.expr).tree()),
            ),
            Ast::If(branch) => Tree::If(
                Box::new((*branch.condition).tree()),
                Box::new((*branch.then_branch).tree()),
                match branch.otherwise {
                    None => None,
                    Some(otherwise) => Some(Box::new((*otherwise).tree())),
                },
                branch.result_type@,
            ),
            Ast::Return(expression) => Tree::Return(Box::new((**expression).tree())),
            Ast::Sequence(statements) => Tree::Sequence(trees_of(statements@)),
            Ast::Extern(declaration) => Tree::Extern(declaration.name@, declaration.typ@),
            Ast::Assignment(lhs, rhs) => Tree::Assignment(
                Box::new((**lhs).tree()),
                Box::new((**rhs).tree()),
            ),
            Ast::MemberAccess(lhs, index) => Tree::MemberAccess(Box::new((**lhs).tree()), *index),
            Ast::Tuple(fields) => Tree::Tuple(trees_of(fields@)),
            Ast::ReinterpretCast(lhs, target) => Tree::ReinterpretCast(Box::new((**lhs).tree()), target@),
            Ast::Builtin(Builtin::Binary(op, lhs, rhs)) => Tree::Binary(
                *op,
                Box::new((**lhs).tree()),
                Box::new((**rhs).tree()),
            ),
            Ast::Builtin(Builtin::Cast(op, lhs, target)) => Tree::Cast(
                *op,
                Box::new((**lhs).tree()),
                target@,
            ),
            Ast::Builtin(Builtin::Offset(address, count, size)) => Tree::Offset(
                Box::new((**address).tree()),
                Box::new((**count).tree()),
                *size,
            ),
            Ast::Builtin(Builtin::StackAlloc(value)) => Tree::StackAlloc(Box::new((**value).tree())),
        }
    }
}

impl View for Ast {
    type V = Tree;

    open spec fn view(&self) -> Tree {
        self.tree()
    }
}

/// Two lists of trees have the same models exactly when they have the same length and
/// agree position by position.
pub proof fn lemma_trees_of_equal(a: Seq<Ast>, b: Seq<Ast>)
    ensures
        trees_of(a) == trees_of(b) <==> (a.len() == b.len() && forall|i: int|
            0 <= i < a.len() ==> a[i]@ == b[i]@),
{
    if trees_of(a) == trees_of(b) {
        assert(a.len() == trees_of(a).len());
        assert(b.len() == trees_of(b).len());
        assert forall|i: int| 0 <= i < a.len() implies a[i]@ == b[i]@ by {
            assert(trees_of(a)[i] == a[i]@);
            assert(trees_of(b)[i] == b[i]@);
        }
    }
    if a.len() == b.len() && (forall|i: int| 0 <= i < a.len() ==> a[i]@ == b[i]@) {
        assert(trees_of(a) =~= trees_of(b));
    }
}

/// The model of a list grows with the list.
pub proof fn lemma_trees_of_push(a: Seq<Ast>, t: Ast)
    ensures
        trees_of(a.push(t)) == trees_of(a).push(t@),
{
    assert(trees_of(a.push(t)) =~= trees_of(a).push(t@));
}

/// The model of two lists, one after the other, is the models, one after the other.
pub proof fn lemma_trees_of_append(a: Seq<Ast>, b: Seq<Ast>)
    ensures
        trees_of(a + b) == trees_of(a) + trees_of(b),
{
    assert(trees_of(a + b) =~= trees_of(a) + trees_of(b));
}

/// The model of a list of parameters grows with the list.
pub proof fn lemma_names_of_push(a: Seq<(Variable, bool)>, variable: Variable, mutable: bool)
    ensures
        names_of(a.push((variable, mutable))) == names_of(a).push((variable@, mutable)),
{
    assert(names_of(a.push((variable, mutable))) =~= names_of(a).push((variable@, mutable)));
}

/// Another handle on the same value.
///
/// What is taken on trust here is that `Rc::clone` of the standard library returns a
/// pointer to the very value that its argument points to.
#[verifier::external_body]
pub(crate) fn share<T>(handle: &Rc<T>) -> (copy: Rc<T>)
    ensures
        copy == *handle,
{
    Rc::clone(handle)
}

impl Clone for Variable {
    fn clone(&self) -> (copy: Variable)
        ensures
            copy@ == self@,
    {
        match &self.definition {
            None => Variable { definition: None, definition_id: self.definition_id },
            Some(definition) => Variable {
                definition: Some(share(definition)),
                definition_id: self.definition_id,
            },
        }
    }
}

/// Copies a list of parameters.
pub fn clone_names(args: &Vec<(Variable, bool)>) -> (copies: Vec<(Variable, bool)>)
    ensures
        names_of(copies@) == names_of(args@),
{
    let mut copies: Vec<(Variable, bool)> = Vec::new();
    let mut i: usize = 0;
    while i < args.len()
        invariant
            i <= args.len(),
            copies.len() == i,
            forall|j: int| 0 <= j < i ==> copies@[j].0@ == args@[j].0@ && copies@[j].1 == args@[j].1,
        decreases args.len() - i,
    {
        copies.push((args[i].0.clone(), args[i].1));
        i += 1;
    }
    assert(names_of(copies@) =~= names_of(args@));
    copies
}

impl Clone for Ast {
    #[verifier::loop_isolation(false)]
    fn clone(&self) -> (copy: Ast)
        ensures
            copy@ == self@,
        decreases self,
    {
        match self {
            Ast::Literal(literal) => Ast::Literal(literal.clone()),
            Ast::Variable(variable) => Ast::Variable(variable.clone()),
            Ast::Lambda(lambda) => Ast::Lambda(
                Lambda {
                    args: clone_names(&lambda.args),
                    body: Box::new((*lambda.body).clone()),
                    typ: lambda.typ.clone(),
                },
            ),
            Ast::FunctionCall(call) => {
                let mut args: Vec<Ast> = Vec::new();
                let mut i: usize = 0;
                while i < call.args.len()
                    invariant
                        i <= call.args.len(),
                        args.len() == i,
                        forall|j: int| 0 <= j < i ==> args@[j]@ == call.args@[j]@,
                    decreases call.args.len() - i,
                {
                    args.push(call.args[i].clone());
                    i += 1;
                }
                proof {
                    lemma_trees_of_equal(args@, call.args@);
                }
                Ast::FunctionCall(
                    FunctionCall {
                        function: Box::new((*call.function).clone()),
                        args,
                        function_type: call.function_type.clone(),
                    },
                )
            },
            Ast::Definition(definition) => Ast::Definition(
                Definition { variable: definition.variable, expr: Box::new((*definition.expr).clone()) },
            ),
            Ast::If(branch) => Ast::If(
                If {
                    condition: Box::new((*branch.condition).clone()),
                    then_branch: Box::new((*branch.then_branch).clone()),
                    otherwise: match &branch.otherwise {
                        None => None,
                        Some(otherwise) => Some(Box::new((**otherwise).clone())),
                    },
                    result_type: branch.result_type.clone(),
                },
            ),
            Ast::Return(expression) => Ast::Return(Box::new((**expression).clone())),
            Ast::Sequence(statements) => {
                let mut copies: Vec<Ast> = Vec::new();
                let mut i: usize = 0;
                while i < statements.len()
                    invariant
                        i <= statements.len(),
                        copies.len() == i,
                        forall|j: int| 0 <= j < i ==> copies@[j]@ == statements@[j]@,
                    decreases statements.len() - i,
                {
                    copies.push(statements[i].clone());
                    i += 1;
                }
                proof {
                    lemma_trees_of_equal(copies@, statements@);
                }
                Ast::Sequence(copies)
            },
            Ast::Extern(declaration) => Ast::Extern(
                Extern { name: declaration.name.clone(), typ: declaration.typ.clone() },
            ),
            Ast::Assignment(lhs, rhs) => Ast::Assignment(Box::new((**lhs).clone()), Box::new((**rhs).clone())),
            Ast::MemberAccess(lhs, index) => Ast::MemberAccess(Box::new((**lhs).clone()), *index),
            Ast::Tuple(fields) => {
                let mut copies: Vec<Ast> = Vec::new();
                let mut i: usize = 0;
                while i < fields.len()
                    invariant
                        i <= fields.len(),
                        copies.len() == i,
                        forall|j: int| 0 <= j < i ==> copies@[j]@ == fields@[j]@,
                    decreases fields.len() - i,
                {
                    copies.push(fields[i].clone());
                    i += 1;
                }
                proof {
                    lemma_trees_of_equal(copies@, fields@);
                }
                Ast::Tuple(copies)
            },
            Ast::ReinterpretCast(lhs, target) => Ast::ReinterpretCast(Box::new((**lhs).clone()), target.clone()),
            Ast::Builtin(Builtin::Binary(op, lhs, rhs)) => Ast::Builtin(
                Builtin::Binary(*op, Box::new((**lhs).clone()), Box::new((**rhs).clone())),
            ),
            Ast::Builtin(Builtin::Cast(op, lhs, target)) => Ast::Builtin(
                Builtin::Cast(*op, Box::new((**lhs).clone()), target.clone()),
            ),
            Ast::Builtin(Builtin::Offset(address, count, size)) => Ast::Builtin(
                Builtin::Offset(Box::new((**address).clone()), Box::new((**count).clone()), *size),
            ),
            Ast::Builtin(Builtin::StackAlloc(value)) => Ast::Builtin(
                Builtin::StackAlloc(Box::new((**value).clone())),
            ),
        }
    }
}

/// The unit value.
pub fn unit_literal() -> (unit: Ast)
    ensures
        unit@ == Tree::Literal(Constant::Unit),
{
    Ast::Literal(Literal::Unit)
}

/// The integer of the given kind.
pub fn int_literal(value: u64, kind: IntegerKind) -> (literal: Ast)
    ensures
        literal@ == Tree::Literal(Constant::Integer(value, kind)),
{
    Ast::Literal(Literal::Integer(value, kind))
}

/// The tag of a variant of a sum type, as a value.
pub fn tag_value(tag: u8) -> (literal: Ast)
    ensures
        literal@ == Tree::Literal(Constant::Integer(tag as u64, IntegerKind::U8)),
{
    int_literal(tag as u64, IntegerKind::U8)
}

/// The address `addr` moved on by `offset` bytes.
pub fn offset_ptr(addr: Ast, offset: u64) -> (moved: Ast)
    ensures
        moved@ == Tree::Offset(
            Box::new(addr@),
            Box::new(Tree::Literal(Constant::Integer(offset, IntegerKind::Usz))),
            1,
        ),
{
    let addr = Box::new(addr);
    let offset = int_literal(offset, IntegerKind::Usz);
    Ast::Builtin(Builtin::Offset(addr, Box::new(offset), 1))
}

} // verus!
