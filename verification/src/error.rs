//! Source locations and the diagnostics that carry them.
use vstd::prelude::*;
use crate::types::{terms_of, Term, Type, TypeVariableId, clone_types};

verus! {

/// A place in the source text.
#[derive(Clone, Copy, Debug, PartialEq, Eq, Structural)]
pub struct Location {
    /// Index of the source file.
    pub file: usize,
    pub line: u32,
    pub column: u32,
}

impl Location {
    /// The location given to what the compiler itself defines.
    pub fn builtin() -> (location: Location)
        ensures
            location == (Location { file: 0, line: 0, column: 0 }),
    {
        Location { file: 0, line: 0, column: 0 }
    }
}

/// A violated invariant of the compiler's own data, as opposed to an error in the program
/// being compiled.
#[derive(Clone, Copy, Debug, PartialEq, Eq, Structural)]
pub enum Fault {
    /// A chain of bindings or a nesting of types went deeper than the recursion limit.
    RecursionLimit,
    /// A type mentions a type variable that the cache does not hold.
    UnknownTypeVariable(TypeVariableId),
    /// The lifetime variable of a reference is bound to something other than a variable or
    /// a reference.
    LifetimeBoundToType(TypeVariableId),
    /// A type is used against its kind: applied to the wrong number of arguments, or a
    /// reference without the type it refers to, or a type that takes no arguments applied
    /// to some.
    KindError,
    /// The type of an integer literal is bound to a type that is no integer.
    NotAnInteger,
    /// A type mentions a user-defined type that the cache does not hold.
    UnknownType(usize),
    /// A user-defined type whose body is not known, or is an alias still.
    UnknownTypeBody(usize),
    /// The size of a type does not fit the machine word.
    SizeOverflow,
    /// A definition, trait, impl or occurrence that the cache does not hold is referred
    /// to.
    UnknownDefinition(usize),
    /// The program is not as inference leaves a well-typed program.
    Malformed,
    /// There are no more ids for definitions of the intermediate representation.
    OutOfIds,
    /// A match is to be lowered, which takes its decision tree.
    NoDecisionTree,
    /// There are more type variables to name than letters to name them with.
    OutOfNames,
}

/// Why two types failed to unify.
#[derive(Debug)]
pub enum UnificationError {
    /// The two types have different shapes.
    TypeMismatch(Type, Type),
    /// Two function types take different numbers of arguments and neither is variadic
    /// with the fewer.
    ArgumentCountMismatch(Type, Type),
    /// Two type applications have different numbers of arguments.
    ArityMismatch(Type, Type),
    /// Binding the variable (first) to the type (second) would make an infinite type.
    RecursiveType(Type, Type),
    /// Two lists of types to be unified pairwise differ in length.
    LengthMismatch(Vec<Type>, Vec<Type>),
    Internal(Fault),
    /// A pattern that may fail to match stands where only a binding may stand.
    NotIrrefutable,
    /// What stands where a binding is to stand is no pattern at all.
    InvalidPattern,
    /// What stands where a definition of an impl is to stand is no pattern at all.
    InvalidImplPattern,
    /// No impl is known for the trait applied to these types.
    UnresolvedTrait(usize, Vec<Type>),
    /// More than one impl is known for the trait applied to these types.
    AmbiguousImpl(usize, Vec<Type>),
    /// A definition in an impl needs the trait applied to these types, which neither the
    /// impl nor the trait gives it.
    TraitNotGiven(usize, Vec<Type>),
    /// A definition in an impl that is no function needs the trait applied to these types.
    TraitOutsideFunction(usize, Vec<Type>),
    /// What is assigned to is nothing that can change.
    NotMutable,
}

/// The model of a [`UnificationError`].
pub enum Mismatch {
    TypeMismatch(Term, Term),
    ArgumentCountMismatch(Term, Term),
    ArityMismatch(Term, Term),
    RecursiveType(Term, Term),
    LengthMismatch(Seq<Term>, Seq<Term>),
    Internal(Fault),
    NotIrrefutable,
    InvalidPattern,
    InvalidImplPattern,
    UnresolvedTrait(usize, Seq<Term>),
    AmbiguousImpl(usize, Seq<Term>),
    TraitNotGiven(usize, Seq<Term>),
    TraitOutsideFunction(usize, Seq<Term>),
    NotMutable,
}

impl View for UnificationError {
    type V = Mismatch;

    open spec fn view(&self) -> Mismatch {
        match self {
            UnificationError::TypeMismatch(a, b) => Mismatch::TypeMismatch(a@, b@),
            UnificationError::ArgumentCountMismatch(a, b) => Mismatch::ArgumentCountMismatch(
                a@,
                b@,
            ),
            UnificationError::ArityMismatch(a, b) => Mismatch::ArityMismatch(a@, b@),
            UnificationError::RecursiveType(a, b) => Mismatch::RecursiveType(a@, b@),
            UnificationError::LengthMismatch(a, b) => Mismatch::LengthMismatch(
                terms_of(a@),
                terms_of(b@),
            ),
            UnificationError::Internal(fault) => Mismatch::Internal(*fault),
            UnificationError::NotIrrefutable => Mismatch::NotIrrefutable,
            UnificationError::InvalidPattern => Mismatch::InvalidPattern,
            UnificationError::InvalidImplPattern => Mismatch::InvalidImplPattern,
            UnificationError::UnresolvedTrait(id, args) => Mismatch::UnresolvedTrait(*id, terms_of(args@)),
            UnificationError::AmbiguousImpl(id, args) => Mismatch::AmbiguousImpl(*id, terms_of(args@)),
            UnificationError::TraitNotGiven(id, args) => Mismatch::TraitNotGiven(*id, terms_of(args@)),
            UnificationError::TraitOutsideFunction(id, args) => Mismatch::TraitOutsideFunction(
                *id,
                terms_of(args@),
            ),
            UnificationError::NotMutable => Mismatch::NotMutable,
        }
    }
}

impl Clone for UnificationError {
    fn clone(&self) -> (copy: UnificationError)
        ensures
            copy@ == self@,
    {
        match self {
            UnificationError::TypeMismatch(a, b) => UnificationError::TypeMismatch(
                a.clone(),
                b.clone(),
            ),
            UnificationError::ArgumentCountMismatch(a, b) => {
                UnificationError::ArgumentCountMismatch(a.clone(), b.clone())
            },
            UnificationError::ArityMismatch(a, b) => UnificationError::ArityMismatch(
                a.clone(),
                b.clone(),
            ),
            UnificationError::RecursiveType(a, b) => UnificationError::RecursiveType(
                a.clone(),
                b.clone(),
            ),
            UnificationError::LengthMismatch(a, b) => UnificationError::LengthMismatch(
                clone_types(a),
                clone_types(b),
            ),
            UnificationError::Internal(fault) => UnificationError::Internal(*fault),
            UnificationError::NotIrrefutable => UnificationError::NotIrrefutable,
            UnificationError::InvalidPattern => UnificationError::InvalidPattern,
            UnificationError::InvalidImplPattern => UnificationError::InvalidImplPattern,
            UnificationError::UnresolvedTrait(id, args) => UnificationError::UnresolvedTrait(
                *id,
                clone_types(args),
            ),
            UnificationError::AmbiguousImpl(id, args) => UnificationError::AmbiguousImpl(*id, clone_types(args)),
            UnificationError::TraitNotGiven(id, args) => UnificationError::TraitNotGiven(*id, clone_types(args)),
            UnificationError::TraitOutsideFunction(id, args) => UnificationError::TraitOutsideFunction(
                *id,
                clone_types(args),
            ),
            UnificationError::NotMutable => UnificationError::NotMutable,
        }
    }
}

/// A failure, with the place in the source at which it arose.
#[derive(Debug)]
pub struct ErrorMessage {
    pub error: UnificationError,
    pub location: Location,
}

impl View for ErrorMessage {
    type V = (Mismatch, Location);

    open spec fn view(&self) -> (Mismatch, Location) {
        (self.error@, self.location)
    }
}

impl Clone for ErrorMessage {
    fn clone(&self) -> (copy: ErrorMessage)
        ensures
            copy@ == self@,
    {
        ErrorMessage { error: self.error.clone(), location: self.location }
    }
}

} // verus!
