//! The model of what inference reads and writes: the shape of the program, which it leaves
//! as it is; what it notes in the nodes; and what the cache knows.
use vstd::prelude::*;
use crate::ast::{ClosureEntry, LiteralKind, Node, NodeKind, Program};
use crate::cache::{
    shapes_of, Binding, DefinitionInfo, DefinitionKind, ImplInfo, ModuleCache, TraitInfo, TypeShape,
    VariableInfo,
};
use crate::constraints::{given_of, trait_info_of};
use crate::error::{ErrorMessage, Location, Mismatch};
use crate::traits::{required_of, Callsite, RequiredImpl, Signature};
use crate::types::{
    terms_of, AstId, DefinitionInfoId, ImplInfoId, ImplScopeId, IntegerKind, LetBindingLevel, Scheme,
    Term, TraitInfoId, Type, TypeVariableId, VariableId,
};
use crate::unify::bindings_model;

verus! {

/// A literal, but for the kind of an integer.
pub enum Value {
    Integer(u64),
    Float(u64),
    String(Seq<char>),
    Char(char),
    Bool(bool),
    Unit,
}

/// A variable captured by a lambda, but for the instantiation: the definition outside,
/// the occurrence, and the definition inside.
pub type Capture = (DefinitionInfoId, VariableId, DefinitionInfoId);

/// The shape of a node: its kind and its children, without what inference notes in it.
pub enum Shape {
    Literal(Value),
    /// Name, definition, occurrence, scope of impls.
    Variable(Seq<char>, Option<DefinitionInfoId>, Option<VariableId>, Option<ImplScopeId>),
    Lambda(Seq<AstId>, AstId, Seq<Capture>),
    FunctionCall(AstId, Seq<AstId>),
    Definition(AstId, AstId, bool, Option<LetBindingLevel>),
    If(AstId, AstId, Option<AstId>),
    Match(AstId, Seq<(AstId, AstId)>),
    TypeDefinition,
    TypeAnnotation(AstId, bool),
    Import,
    TraitDefinition(Seq<AstId>, Option<LetBindingLevel>),
    TraitImpl(Option<TraitInfoId>, Option<ImplInfoId>, Seq<Term>, Seq<AstId>),
    Return(AstId),
    Sequence(Seq<AstId>),
    Extern(Seq<AstId>, Option<LetBindingLevel>),
    MemberAccess(AstId, Seq<char>),
    Assignment(AstId, AstId),
}

/// The shape of a literal.
pub open spec fn value_of(kind: LiteralKind) -> Value {
    match kind {
        LiteralKind::Integer(n, _) => Value::Integer(n),
        LiteralKind::Float(bits) => Value::Float(bits),
        LiteralKind::String(text) => Value::String(text@),
        LiteralKind::Char(c) => Value::Char(c),
        LiteralKind::Bool(b) => Value::Bool(b),
        LiteralKind::Unit => Value::Unit,
    }
}

/// The shapes of the captures of a lambda, in order.
pub open spec fn captures_of(environment: Seq<ClosureEntry>) -> Seq<Capture> {
    Seq::new(environment.len(), |i: int| (environment[i].outer, environment[i].variable, environment[i].inner))
}

/// The shape of a node.
pub open spec fn shape_of(kind: NodeKind) -> Shape {
    match kind {
        NodeKind::Literal(kind) => Shape::Literal(value_of(kind)),
        NodeKind::Variable(variable) => Shape::Variable(
            variable.name@,
            variable.definition,
            variable.id,
            variable.impl_scope,
        ),
        NodeKind::Lambda(args, body, environment) => Shape::Lambda(args@, body, captures_of(environment@)),
        NodeKind::FunctionCall(function, args) => Shape::FunctionCall(function, args@),
        NodeKind::Definition(pattern, expr, mutable, level) => Shape::Definition(pattern, expr, mutable, level),
        NodeKind::If(condition, then_branch, otherwise) => Shape::If(condition, then_branch, otherwise),
        NodeKind::Match(expression, branches, _) => Shape::Match(expression, branches@),
        NodeKind::TypeDefinition => Shape::TypeDefinition,
        NodeKind::TypeAnnotation(lhs, mutable) => Shape::TypeAnnotation(lhs, mutable),
        NodeKind::Import => Shape::Import,
        NodeKind::TraitDefinition(declarations, level) => Shape::TraitDefinition(declarations@, level),
        NodeKind::TraitImpl(trait_info, impl_id, args, definitions) => Shape::TraitImpl(
            trait_info,
            impl_id,
            terms_of(args@),
            definitions@,
        ),
        NodeKind::Return(expression) => Shape::Return(expression),
        NodeKind::Sequence(statements) => Shape::Sequence(statements@),
        NodeKind::Extern(declarations, level) => Shape::Extern(declarations@, level),
        NodeKind::MemberAccess(lhs, field) => Shape::MemberAccess(lhs, field@),
        NodeKind::Assignment(lhs, rhs) => Shape::Assignment(lhs, rhs),
    }
}

/// What inference notes in one node.
pub struct Note {
    /// The type of the node.
    pub typ: Option<Term>,
    /// The kind of the integer, where the node is an integer literal.
    pub kind: Option<IntegerKind>,
    /// The instantiation of the definition, where the node is a variable.
    pub mapping: Map<TypeVariableId, Term>,
    /// The instantiation of each captured definition, where the node is a lambda.
    pub captured: Seq<Map<TypeVariableId, Term>>,
    /// Whether the node is a match that is fit for the construction of its decision tree.
    pub ready: bool,
}

/// The models of an optional type.
pub open spec fn slot_of(typ: Option<Type>) -> Option<Term> {
    match typ {
        None => None,
        Some(t) => Some(t@),
    }
}

/// What is noted in a node.
pub open spec fn note_of(node: Node) -> Note {
    Note {
        typ: slot_of(node.typ),
        kind: match node.kind {
            NodeKind::Literal(LiteralKind::Integer(_, kind)) => Some(kind),
            _ => None,
        },
        mapping: match node.kind {
            NodeKind::Variable(variable) => bindings_model((*variable.instantiation_mapping)@),
            _ => Map::empty(),
        },
        captured: match node.kind {
            NodeKind::Lambda(_, _, environment) => Seq::new(
                environment@.len(),
                |i: int| bindings_model((*environment@[i].bindings)@),
            ),
            _ => Seq::empty(),
        },
        ready: match node.kind {
            NodeKind::Match(_, _, ready) => ready,
            _ => false,
        },
    }
}

impl Program {
    /// The shapes of the nodes, in order.
    pub open spec fn shapes(&self) -> Seq<Shape> {
        Seq::new(self.nodes@.len(), |i: int| shape_of(self.nodes@[i].kind))
    }

    /// The places of the nodes in the source, in order.
    pub open spec fn locations(&self) -> Seq<Location> {
        Seq::new(self.nodes@.len(), |i: int| self.nodes@[i].location)
    }

    /// What is noted in the nodes, in order.
    pub open spec fn notes(&self) -> Seq<Note> {
        Seq::new(self.nodes@.len(), |i: int| note_of(self.nodes@[i]))
    }
}

/// The model of a [`DefinitionInfo`].
pub struct DefinitionModel {
    pub name: Seq<char>,
    pub location: Location,
    pub definition: Option<DefinitionKind>,
    pub trait_info: Option<(TraitInfoId, Seq<Term>)>,
    pub trait_impl: Option<ImplInfoId>,
    pub required_traits: Seq<(Signature, Callsite)>,
    pub mutable: bool,
    pub typ: Option<Scheme>,
}

/// The model of an optional type of a definition.
pub open spec fn scheme_of(typ: Option<crate::types::GeneralizedType>) -> Option<Scheme> {
    match typ {
        None => None,
        Some(scheme) => Some(scheme@),
    }
}

impl View for DefinitionInfo {
    type V = DefinitionModel;

    open spec fn view(&self) -> DefinitionModel {
        DefinitionModel {
            name: self.name@,
            location: self.location,
            definition: self.definition,
            trait_info: trait_info_of(self.trait_info),
            trait_impl: self.trait_impl,
            required_traits: required_of(self.required_traits@),
            mutable: self.mutable,
            typ: scheme_of(self.typ),
        }
    }
}

/// The model of a [`TraitInfo`].
pub struct TraitModel {
    pub name: Seq<char>,
    pub typeargs: Seq<TypeVariableId>,
    pub fundeps: Seq<TypeVariableId>,
    pub definitions: Seq<DefinitionInfoId>,
    pub trait_node: Option<AstId>,
    pub location: Location,
}

impl View for TraitInfo {
    type V = TraitModel;

    open spec fn view(&self) -> TraitModel {
        TraitModel {
            name: self.name@,
            typeargs: self.typeargs@,
            fundeps: self.fundeps@,
            definitions: self.definitions@,
            trait_node: self.trait_node,
            location: self.location,
        }
    }
}

/// The model of an [`ImplInfo`].
pub struct ImplModel {
    pub trait_id: TraitInfoId,
    pub typeargs: Seq<Term>,
    pub definitions: Seq<DefinitionInfoId>,
    pub given: Seq<Signature>,
}

impl View for ImplInfo {
    type V = ImplModel;

    open spec fn view(&self) -> ImplModel {
        ImplModel {
            trait_id: self.trait_id,
            typeargs: terms_of(self.typeargs@),
            definitions: self.definitions@,
            given: given_of(self.given@),
        }
    }
}

/// The model of a [`RequiredImpl`]: the arguments, where the obligation arose, the impl.
pub type Chosen = (Seq<Term>, Callsite, ImplInfoId);

/// The model of a [`VariableInfo`].
pub struct VariableModel {
    pub name: Seq<char>,
    pub location: Location,
    pub required_impls: Seq<Chosen>,
}

/// The models of the impls chosen, in order.
pub open spec fn chosen_of(impls: Seq<RequiredImpl>) -> Seq<Chosen> {
    Seq::new(impls.len(), |i: int| (terms_of(impls[i].args@), impls[i].callsite, impls[i].binding))
}

impl View for VariableInfo {
    type V = VariableModel;

    open spec fn view(&self) -> VariableModel {
        VariableModel { name: self.name@, location: self.location, required_impls: chosen_of(self.required_impls@) }
    }
}

/// What the cache knows.
pub struct Knowledge {
    pub store: Seq<Binding>,
    pub level: usize,
    pub next_constraint: u32,
    pub diagnostics: Seq<(Mismatch, Location)>,
    pub definitions: Seq<DefinitionModel>,
    pub traits: Seq<TraitModel>,
    pub impls: Seq<ImplModel>,
    pub variables: Seq<VariableModel>,
    pub types: Seq<TypeShape>,
    pub int_trait: Option<TraitInfoId>,
}

/// The models of the diagnostics, in order.
pub open spec fn reports_of(diagnostics: Seq<ErrorMessage>) -> Seq<(Mismatch, Location)> {
    Seq::new(diagnostics.len(), |i: int| diagnostics[i]@)
}

impl ModuleCache {
    /// What this cache knows.
    pub open spec fn knowledge(&self) -> Knowledge {
        Knowledge {
            store: self.store(),
            level: self.current_level,
            next_constraint: self.current_trait_constraint_id,
            diagnostics: reports_of(self.diagnostics@),
            definitions: Seq::new(self.definition_infos@.len(), |i: int| self.definition_infos@[i]@),
            traits: Seq::new(self.trait_infos@.len(), |i: int| self.trait_infos@[i]@),
            impls: Seq::new(self.impl_infos@.len(), |i: int| self.impl_infos@[i]@),
            variables: Seq::new(self.variable_infos@.len(), |i: int| self.variable_infos@[i]@),
            types: shapes_of(self.type_infos@),
            int_trait: self.int_trait,
        }
    }
}

} // verus!
