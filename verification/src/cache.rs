//! The compilation cache: the table of type-variable bindings that every pass shares,
//! together with the let-binding level in force and the diagnostics issued so far.
use vstd::prelude::*;
use crate::error::{ErrorMessage, Location};
use crate::traits::{ConstraintSignature, RequiredImpl, RequiredTrait};
use crate::types::{
    AstId, DefinitionInfoId, GeneralizedType, ImplInfoId, Kind, LetBindingLevel, Term, TraitInfoId,
    Type, TypeVariableId,
};

verus! {

/// The state of one type variable.
#[derive(Debug)]
pub enum TypeBinding {
    Bound(Type),
    Unbound(LetBindingLevel, Kind),
}

/// The model of a [`TypeBinding`].
pub enum Binding {
    Bound(Term),
    Unbound(LetBindingLevel, Kind),
}

impl View for TypeBinding {
    type V = Binding;

    open spec fn view(&self) -> Binding {
        match self {
            TypeBinding::Bound(t) => Binding::Bound(t@),
            TypeBinding::Unbound(level, kind) => Binding::Unbound(*level, *kind),
        }
    }
}

impl Clone for TypeBinding {
    fn clone(&self) -> (copy: TypeBinding)
        ensures
            copy@ == self@,
    {
        match self {
            TypeBinding::Bound(t) => TypeBinding::Bound(t.clone()),
            TypeBinding::Unbound(level, kind) => TypeBinding::Unbound(*level, *kind),
        }
    }
}

/// The models of a table of bindings, in order.
pub open spec fn store_of(table: Seq<TypeBinding>) -> Seq<Binding> {
    Seq::new(table.len(), |i: int| table[i]@)
}

/// One variant of a sum type.
#[derive(Debug)]
pub struct TypeConstructor {
    pub name: String,
    /// The types of the fields that the variant holds.
    pub args: Vec<Type>,
    /// The definition of the function or value that builds the variant.
    pub id: DefinitionInfoId,
    pub location: Location,
}

/// One field of a struct type.
#[derive(Debug)]
pub struct Field {
    pub name: String,
    pub field_type: Type,
    pub location: Location,
}

/// What a user-defined type is made of.
#[derive(Debug)]
pub enum TypeInfoBody {
    Union(Vec<TypeConstructor>),
    Struct(Vec<Field>),
    Alias(Type),
    Unknown,
}

/// A user-defined type.
#[derive(Debug)]
pub struct TypeInfo {
    /// The type variables that the definition of the type is generic over.
    pub args: Vec<TypeVariableId>,
    pub name: String,
    pub body: TypeInfoBody,
    pub location: Location,
}

/// The model of a [`TypeConstructor`].
pub struct Variant {
    pub name: Seq<char>,
    pub args: Seq<Term>,
    pub id: DefinitionInfoId,
}

/// The model of a [`TypeInfoBody`].
pub enum Shape {
    Union(Seq<Variant>),
    /// The fields, each with its name and type.
    Struct(Seq<(Seq<char>, Term)>),
    Alias(Term),
    Unknown,
}

/// The model of a [`TypeInfo`].
pub struct TypeShape {
    pub args: Seq<TypeVariableId>,
    pub name: Seq<char>,
    pub body: Shape,
}

impl View for TypeConstructor {
    type V = Variant;

    open spec fn view(&self) -> Variant {
        Variant { name: self.name@, args: crate::types::terms_of(self.args@), id: self.id }
    }
}

impl View for TypeInfoBody {
    type V = Shape;

    open spec fn view(&self) -> Shape {
        match self {
            TypeInfoBody::Union(variants) => Shape::Union(Seq::new(variants@.len(), |i: int| variants@[i]@)),
            TypeInfoBody::Struct(fields) => Shape::Struct(
                Seq::new(fields@.len(), |i: int| (fields@[i].name@, fields@[i].field_type@)),
            ),
            TypeInfoBody::Alias(t) => Shape::Alias(t@),
            TypeInfoBody::Unknown => Shape::Unknown,
        }
    }
}

impl View for TypeInfo {
    type V = TypeShape;

    open spec fn view(&self) -> TypeShape {
        TypeShape { args: self.args@, name: self.name@, body: self.body@ }
    }
}

/// The models of the user-defined types, in order.
pub open spec fn shapes_of(infos: Seq<TypeInfo>) -> Seq<TypeShape> {
    Seq::new(infos.len(), |i: int| infos[i]@)
}

/// What kind of thing a definition defines.
#[derive(Clone, Copy, Debug, PartialEq, Eq, Structural)]
pub enum DefinitionKind {
    /// An ordinary binding; the node is the definition.
    Definition(AstId),
    /// A member of a trait; the node is the declaration of the trait.
    TraitDefinition(AstId),
    /// A declaration of something defined elsewhere; the node is the declaration.
    Extern(AstId),
    /// A constructor of a user-defined type: the tag of the variant for a sum type, none
    /// for a struct.
    TypeConstructor(Option<u8>),
    Parameter,
    MatchPattern,
}

/// A definition: a name bound by the program.
#[derive(Debug)]
pub struct DefinitionInfo {
    pub name: String,
    pub location: Location,
    pub definition: Option<DefinitionKind>,
    /// The trait and its arguments, if this is a member of a trait.
    pub trait_info: Option<(TraitInfoId, Vec<Type>)>,
    /// The impl, if this is a definition inside one.
    pub trait_impl: Option<ImplInfoId>,
    /// The traits that each use of the definition needs an impl of.
    pub required_traits: Vec<RequiredTrait>,
    pub mutable: bool,
    /// The type, once inference has reached the definition.
    pub typ: Option<GeneralizedType>,
}

/// A trait.
#[derive(Debug)]
pub struct TraitInfo {
    pub name: String,
    pub typeargs: Vec<TypeVariableId>,
    pub fundeps: Vec<TypeVariableId>,
    /// The members of the trait.
    pub definitions: Vec<DefinitionInfoId>,
    /// The declaration of the trait; none for the traits that the compiler makes up.
    pub trait_node: Option<AstId>,
    pub location: Location,
}

/// An impl of a trait.
#[derive(Debug)]
pub struct ImplInfo {
    pub trait_id: TraitInfoId,
    pub typeargs: Vec<Type>,
    /// The definitions of the members, in the order of the impl.
    pub definitions: Vec<DefinitionInfoId>,
    /// What the impl itself needs impls of.
    pub given: Vec<ConstraintSignature>,
    pub location: Location,
}

/// One occurrence of a variable.
#[derive(Debug)]
pub struct VariableInfo {
    pub name: String,
    pub location: Location,
    /// The impls chosen for the obligations that arose at this occurrence.
    pub required_impls: Vec<RequiredImpl>,
}

pub struct ModuleCache {
    /// The binding of each type variable, indexed by its id.
    pub type_bindings: Vec<TypeBinding>,
    /// The let-binding level in force: one more inside the right-hand side of each
    /// enclosing definition.
    pub current_level: usize,
    /// One entry for each failure reported so far.
    pub diagnostics: Vec<ErrorMessage>,
    /// The user-defined types, indexed by id.
    pub type_infos: Vec<TypeInfo>,
    /// The definitions, indexed by id.
    pub definition_infos: Vec<DefinitionInfo>,
    /// The traits, indexed by id.
    pub trait_infos: Vec<TraitInfo>,
    /// The impls, indexed by id.
    pub impl_infos: Vec<ImplInfo>,
    /// The occurrences of variables, indexed by id.
    pub variable_infos: Vec<VariableInfo>,
    /// The id that the next obligation gets.
    pub current_trait_constraint_id: u32,
    /// The trait of the integer types, which the type of an integer literal without a
    /// suffix is constrained by.
    pub int_trait: Option<TraitInfoId>,
}

impl ModuleCache {
    /// The table of bindings as a sequence of models.
    pub open spec fn store(&self) -> Seq<Binding> {
        store_of(self.type_bindings@)
    }

    /// Do the two caches hold the same types, definitions, traits, impls and occurrences?
    pub open spec fn same_infos(&self, other: &ModuleCache) -> bool {
        &&& self.type_infos == other.type_infos
        &&& self.definition_infos == other.definition_infos
        &&& self.trait_infos == other.trait_infos
        &&& self.impl_infos == other.impl_infos
        &&& self.variable_infos == other.variable_infos
        &&& self.int_trait == other.int_trait
    }

    /// Do the two caches differ at most in the bindings of type variables?
    pub open spec fn same_but_bindings(&self, other: &ModuleCache) -> bool {
        &&& self.same_infos(other)
        &&& self.current_level == other.current_level
        &&& self.diagnostics == other.diagnostics
        &&& self.current_trait_constraint_id == other.current_trait_constraint_id
    }

    /// An empty cache, at the level of top-level definitions.
    pub fn new() -> (cache: ModuleCache)
        ensures
            cache.store() == Seq::<Binding>::empty(),
            cache.current_level == crate::types::INITIAL_LEVEL,
            cache.diagnostics@.len() == 0,
            cache.type_infos@.len() == 0,
            cache.definition_infos@.len() == 0,
            cache.trait_infos@.len() == 0,
            cache.impl_infos@.len() == 0,
            cache.variable_infos@.len() == 0,
            cache.current_trait_constraint_id == 0,
            cache.int_trait.is_none(),
    {
        let cache = ModuleCache {
            type_bindings: Vec::new(),
            current_level: crate::types::INITIAL_LEVEL,
            diagnostics: Vec::new(),
            type_infos: Vec::new(),
            definition_infos: Vec::new(),
            trait_infos: Vec::new(),
            impl_infos: Vec::new(),
            variable_infos: Vec::new(),
            current_trait_constraint_id: 0,
            int_trait: None,
        };
        assert(cache.store() =~= Seq::<Binding>::empty());
        cache
    }

    /// Adds an unbound type variable at the given level and returns its id, which is the
    /// number of variables there were before.
    pub fn next_type_variable_id(&mut self, level: LetBindingLevel) -> (id: TypeVariableId)
        ensures
            id == old(self).store().len(),
            final(self).store() == old(self).store().push(Binding::Unbound(level, Kind(0))),
            final(self).same_but_bindings(old(self)),
    {
        let id = self.type_bindings.len();
        self.type_bindings.push(TypeBinding::Unbound(level, Kind(0)));
        assert(self.store() =~= old(self).store().push(Binding::Unbound(level, Kind(0))));
        id
    }

    /// Adds an unbound type variable at the given level and returns it as a type.
    pub fn next_type_variable(&mut self, level: LetBindingLevel) -> (typ: Type)
        ensures
            typ@ == Term::TypeVariable(old(self).store().len() as usize),
            final(self).store() == old(self).store().push(Binding::Unbound(level, Kind(0))),
            final(self).same_but_bindings(old(self)),
    {
        Type::TypeVariable(self.next_type_variable_id(level))
    }
}

} // verus!
