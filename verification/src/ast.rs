//! The syntax tree that the parser and the name resolver hand over, in an arena: a node
//! refers to its children, and the cache refers to the nodes of definitions, by index.
//! Every node has a slot for its type, which inference fills.
use vstd::prelude::*;
use vstd::string::StringExecFns;
use std::rc::Rc;
use crate::error::Location;
use crate::types::{
    AstId, DefinitionInfoId, ImplInfoId, ImplScopeId, IntegerKind, LetBindingLevel, TraitInfoId, Type,
    VariableId,
};
use crate::unify::TypeBindings;

verus! {

/// The index of the definition that stands for every operation that the compiler itself
/// provides. A call of it names the operation in its first argument.
pub const BUILTIN_ID: usize = 0;

#[derive(Debug)]
pub enum LiteralKind {
    Integer(u64, IntegerKind),
    /// The bits of the number.
    Float(u64),
    String(String),
    Char(char),
    Bool(bool),
    Unit,
}

/// A variable that a lambda captures.
#[derive(Debug)]
pub struct ClosureEntry {
    /// The definition outside the lambda.
    pub outer: DefinitionInfoId,
    /// The occurrence that stands for the capture.
    pub variable: VariableId,
    /// The definition that the body of the lambda uses in its place.
    pub inner: DefinitionInfoId,
    /// The instantiation of the outer definition at the capture.
    pub bindings: Rc<TypeBindings>,
}

#[derive(Debug)]
pub struct Variable {
    pub name: String,
    pub definition: Option<DefinitionInfoId>,
    pub id: Option<VariableId>,
    pub impl_scope: Option<ImplScopeId>,
    /// The replacement of each quantified variable of the definition at this use.
    pub instantiation_mapping: Rc<TypeBindings>,
}

#[derive(Debug)]
pub enum NodeKind {
    Literal(LiteralKind),
    Variable(Variable),
    /// Parameters, body, captured variables in the order of their outer definitions.
    Lambda(Vec<AstId>, AstId, Vec<ClosureEntry>),
    /// Function and arguments.
    FunctionCall(AstId, Vec<AstId>),
    /// Pattern, right-hand side, whether the definition is mutable, and the level of the
    /// right-hand side.
    Definition(AstId, AstId, bool, Option<LetBindingLevel>),
    /// Condition, then-branch, else-branch.
    If(AstId, AstId, Option<AstId>),
    /// Scrutinee, branches as pairs of pattern and body, and whether inference has found
    /// the match fit for the construction of its decision tree.
    Match(AstId, Vec<(AstId, AstId)>, bool),
    TypeDefinition,
    /// The annotated node, and whether the annotation says `mut`. The type of the
    /// annotation is in the type slot of the node.
    TypeAnnotation(AstId, bool),
    Import,
    /// The declarations, each a type annotation, and the level.
    TraitDefinition(Vec<AstId>, Option<LetBindingLevel>),
    /// The trait, the impl, the arguments of the trait, and the definitions.
    TraitImpl(Option<TraitInfoId>, Option<ImplInfoId>, Vec<Type>, Vec<AstId>),
    Return(AstId),
    Sequence(Vec<AstId>),
    /// The declarations, each a type annotation, and the level.
    Extern(Vec<AstId>, Option<LetBindingLevel>),
    /// The value and the name of the field.
    MemberAccess(AstId, String),
    Assignment(AstId, AstId),
}

#[derive(Debug)]
pub struct Node {
    pub kind: NodeKind,
    pub location: Location,
    pub typ: Option<Type>,
}

/// All the nodes of a program.
#[derive(Debug)]
pub struct Program {
    pub nodes: Vec<Node>,
}

/// Is the text the name of the constructor of pairs?
pub open spec fn is_comma(name: Seq<char>) -> bool {
    name == seq![',']
}

impl Program {
    /// Is the node one of the program?
    pub open spec fn has(&self, id: AstId) -> bool {
        id.0 < self.nodes@.len()
    }

    /// The node.
    pub open spec fn node(&self, id: AstId) -> Node {
        self.nodes@[id.0 as int]
    }

    /// The node, if it is one of the program.
    pub fn get(&self, id: AstId) -> (node: Option<&Node>)
        ensures
            match node {
                Some(found) => self.has(id) && *found == self.node(id),
                None => !self.has(id),
            },
    {
        if id.0 < self.nodes.len() {
            Some(&self.nodes[id.0])
        } else {
            None
        }
    }

    /// Is the node a use of the constructor of pairs?
    pub open spec fn pair_constructor(&self, function: AstId) -> bool {
        self.has(function) && (self.node(function).kind matches NodeKind::Variable(variable) && is_comma(
            variable.name@,
        ))
    }

    /// Is the function of a call the constructor of pairs?
    pub fn is_pair_constructor(&self, function: AstId) -> (pair: bool)
        ensures
            pair == self.pair_constructor(function),
    {
        match self.get(function) {
            Some(node) => match &node.kind {
                NodeKind::Variable(variable) => {
                    proof {
                        reveal_strlit(",");
                    }
                    let comma = String::from_str(",");
                    assert(comma@ =~= seq![',']);
                    variable.name == comma
                },
                _ => false,
            },
            None => false,
        }
    }
}

} // verus!
