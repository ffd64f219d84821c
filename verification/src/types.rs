//! Type terms, their mathematical model, and the binding state of type variables.
use vstd::prelude::*;

verus! {

/// Identifies a type variable: an index into the cache's table of type bindings.
pub type TypeVariableId = usize;

/// Identifies a user-defined nominal type.
#[derive(Clone, Copy, Debug, PartialEq, Eq, Hash, Structural)]
pub struct TypeInfoId(pub usize);

/// Identifies a definition: an index into the cache's table of definitions.
#[derive(Clone, Copy, Debug, PartialEq, Eq, Hash, Structural)]
pub struct DefinitionInfoId(pub usize);

/// Identifies a trait.
#[derive(Clone, Copy, Debug, PartialEq, Eq, Hash, Structural)]
pub struct TraitInfoId(pub usize);

/// Identifies an impl of a trait.
#[derive(Clone, Copy, Debug, PartialEq, Eq, Hash, Structural)]
pub struct ImplInfoId(pub usize);

/// Identifies the set of impls that are visible at some place in the program.
#[derive(Clone, Copy, Debug, PartialEq, Eq, Hash, Structural)]
pub struct ImplScopeId(pub usize);

/// Identifies one occurrence of a variable in the program.
#[derive(Clone, Copy, Debug, PartialEq, Eq, Hash, Structural)]
pub struct VariableId(pub usize);

/// Identifies one obligation to have an impl of a trait.
#[derive(Clone, Copy, Debug, PartialEq, Eq, Hash, Structural)]
pub struct TraitConstraintId(pub u32);

/// Identifies a node of the syntax tree.
#[derive(Clone, Copy, Debug, PartialEq, Eq, Hash, Structural)]
pub struct AstId(pub usize);

/// The depth of `let` nesting at which a type variable was created, or to which it has
/// since escaped.
#[derive(Clone, Copy, Debug, PartialEq, Eq, Hash, Structural)]
pub struct LetBindingLevel(pub usize);

/// The level of top-level definitions.
pub const INITIAL_LEVEL: usize = 1;

/// Index of the nominal type of pairs, from which tuples are nested.
pub const PAIR_TYPE: usize = 0;

/// Index of the nominal type of strings.
pub const STRING_TYPE: usize = 1;

/// Signedness and width of an integer type as written in the source program.
#[derive(Clone, Copy, Debug, PartialEq, Eq, Hash, Structural)]
pub enum IntegerKind {
    /// A literal without a suffix, before inference has seen it.
    Unknown,
    /// A literal without a suffix whose kind is the binding of this type variable.
    Inferred(TypeVariableId),
    I8,
    I16,
    I32,
    I64,
    Isz,
    U8,
    U16,
    U32,
    U64,
    Usz,
}

#[derive(Clone, Copy, Debug, PartialEq, Eq, Hash, Structural)]
pub enum PrimitiveType {
    IntegerType(IntegerKind),
    FloatType,
    CharType,
    BooleanType,
    UnitType,
    Ptr,
}

/// The kind tag of an unbound type variable: the number of type arguments it expects.
#[derive(Clone, Copy, Debug, PartialEq, Eq, Hash, Structural)]
pub struct Kind(pub usize);

#[derive(Debug)]
pub struct FunctionType {
    pub parameters: Vec<Type>,
    pub return_type: Box<Type>,
    /// Unit when the function is not a closure.
    pub environment: Box<Type>,
    pub is_varargs: bool,
}

#[derive(Debug)]
pub enum Type {
    Primitive(PrimitiveType),
    Function(FunctionType),
    TypeVariable(TypeVariableId),
    UserDefined(TypeInfoId),
    TypeApplication(Box<Type>, Vec<Type>),
    /// A reference; the id is its lifetime variable.
    Ref(TypeVariableId),
}

/// The mathematical model of a [`Type`]: the same tree with sequences for lists.
pub enum Term {
    Primitive(PrimitiveType),
    /// Parameters, return type, environment, varargs flag.
    Function(Seq<Term>, Box<Term>, Box<Term>, bool),
    TypeVariable(TypeVariableId),
    UserDefined(TypeInfoId),
    TypeApplication(Box<Term>, Seq<Term>),
    Ref(TypeVariableId),
}

/// The models of a list of types, in order.
pub open spec fn terms_of(types: Seq<Type>) -> Seq<Term>
    decreases types,
{
    Seq::new(
        types.len(),
        |i: int|
            if 0 <= i < types.len() {
                types[i].term()
            } else {
                Term::Primitive(PrimitiveType::UnitType)
            },
    )
}

impl Type {
    /// The model of this type.
    pub open spec fn term(&self) -> Term
        decreases self,
    {
        match self {
            Type::Primitive(p) => Term::Primitive(*p),
            Type::Function(f) => Term::Function(
                terms_of(f.parameters@),
                Box::new((*f.return_type).term()),
                Box::new((*f.environment).term()),
                f.is_varargs,
            ),
            Type::TypeVariable(id) => Term::TypeVariable(*id),
            Type::UserDefined(id) => Term::UserDefined(*id),
            Type::TypeApplication(constructor, args) => Term::TypeApplication(
                Box::new((**constructor).term()),
                terms_of(args@),
            ),
            Type::Ref(lifetime) => Term::Ref(*lifetime),
        }
    }
}

impl View for Type {
    type V = Term;

    open spec fn view(&self) -> Term {
        self.term()
    }
}

/// Two lists of types have the same models exactly when they have the same length and
/// agree position by position.
pub proof fn lemma_terms_of_equal(a: Seq<Type>, b: Seq<Type>)
    ensures
        terms_of(a) == terms_of(b) <==> (a.len() == b.len() && forall|i: int|
            0 <= i < a.len() ==> a[i]@ == b[i]@),
{
    if terms_of(a) == terms_of(b) {
        assert(a.len() == terms_of(a).len());
        assert(b.len() == terms_of(b).len());
        assert forall|i: int| 0 <= i < a.len() implies a[i]@ == b[i]@ by {
            assert(terms_of(a)[i] == a[i]@);
            assert(terms_of(b)[i] == b[i]@);
        }
    }
    if a.len() == b.len() && (forall|i: int| 0 <= i < a.len() ==> a[i]@ == b[i]@) {
        assert(terms_of(a) =~= terms_of(b));
    }
}

/// The model of a list grows with the list.
pub proof fn lemma_terms_of_push(a: Seq<Type>, t: Type)
    ensures
        terms_of(a.push(t)) == terms_of(a).push(t@),
{
    assert(terms_of(a.push(t)) =~= terms_of(a).push(t@));
}

impl Clone for Type {
    #[verifier::loop_isolation(false)]
    fn clone(&self) -> (copy: Type)
        ensures
            copy@ == self@,
        decreases self,
    {
        match self {
            Type::Primitive(p) => Type::Primitive(*p),
            Type::Function(f) => {
                let mut parameters: Vec<Type> = Vec::new();
                let mut i: usize = 0;
                while i < f.parameters.len()
                    invariant
                        i <= f.parameters.len(),
                        parameters.len() == i,
                        forall|j: int| 0 <= j < i ==> parameters@[j]@ == f.parameters@[j]@,
                    decreases f.parameters.len() - i,
                {
                    parameters.push(f.parameters[i].clone());
                    i += 1;
                }
                proof {
                    lemma_terms_of_equal(parameters@, f.parameters@);
                }
                Type::Function(
                    FunctionType {
                        parameters,
                        return_type: Box::new((*f.return_type).clone()),
                        environment: Box::new((*f.environment).clone()),
                        is_varargs: f.is_varargs,
                    },
                )
            },
            Type::TypeVariable(id) => Type::TypeVariable(*id),
            Type::UserDefined(id) => Type::UserDefined(*id),
            Type::TypeApplication(constructor, args) => {
                let mut copies: Vec<Type> = Vec::new();
                let mut i: usize = 0;
                while i < args.len()
                    invariant
                        i <= args.len(),
                        copies.len() == i,
                        forall|j: int| 0 <= j < i ==> copies@[j]@ == args@[j]@,
                    decreases args.len() - i,
                {
                    copies.push(args[i].clone());
                    i += 1;
                }
                proof {
                    lemma_terms_of_equal(copies@, args@);
                }
                Type::TypeApplication(Box::new((**constructor).clone()), copies)
            },
            Type::Ref(lifetime) => Type::Ref(*lifetime),
        }
    }
}

impl Clone for FunctionType {
    fn clone(&self) -> (copy: FunctionType)
        ensures
            Type::Function(copy)@ == Type::Function(*self)@,
    {
        let mut parameters: Vec<Type> = Vec::new();
        let mut i: usize = 0;
        while i < self.parameters.len()
            invariant
                i <= self.parameters.len(),
                parameters.len() == i,
                forall|j: int| 0 <= j < i ==> parameters@[j]@ == self.parameters@[j]@,
            decreases self.parameters.len() - i,
        {
            parameters.push(self.parameters[i].clone());
            i += 1;
        }
        proof {
            lemma_terms_of_equal(parameters@, self.parameters@);
        }
        FunctionType {
            parameters,
            return_type: Box::new((*self.return_type).clone()),
            environment: Box::new((*self.environment).clone()),
            is_varargs: self.is_varargs,
        }
    }
}

/// Copies a list of types.
pub fn clone_types(types: &Vec<Type>) -> (copies: Vec<Type>)
    ensures
        terms_of(copies@) == terms_of(types@),
{
    let mut copies: Vec<Type> = Vec::new();
    let mut i: usize = 0;
    while i < types.len()
        invariant
            i <= types.len(),
            copies.len() == i,
            forall|j: int| 0 <= j < i ==> copies@[j]@ == types@[j]@,
        decreases types.len() - i,
    {
        copies.push(types[i].clone());
        i += 1;
    }
    proof {
        lemma_terms_of_equal(copies@, types@);
    }
    copies
}

impl PartialEq for Type {
    #[verifier::loop_isolation(false)]
    fn eq(&self, other: &Type) -> (same: bool)
        decreases self,
    {
        match (self, other) {
            (Type::Primitive(a), Type::Primitive(b)) => *a == *b,
            (Type::Function(f), Type::Function(g)) => {
                if f.is_varargs != g.is_varargs || f.parameters.len() != g.parameters.len() {
                    proof {
                        lemma_terms_of_equal(f.parameters@, g.parameters@);
                    }
                    return false;
                }
                let mut i: usize = 0;
                while i < f.parameters.len()
                    invariant
                        i <= f.parameters.len(),
                        f.parameters.len() == g.parameters.len(),
                        forall|j: int| 0 <= j < i ==> f.parameters@[j]@ == g.parameters@[j]@,
                    decreases f.parameters.len() - i,
                {
                    if !f.parameters[i].eq(&g.parameters[i]) {
                        proof {
                            lemma_terms_of_equal(f.parameters@, g.parameters@);
                        }
                        return false;
                    }
                    i += 1;
                }
                proof {
                    lemma_terms_of_equal(f.parameters@, g.parameters@);
                }
                (*f.return_type).eq(&*g.return_type) && (*f.environment).eq(&*g.environment)
            },
            (Type::TypeVariable(a), Type::TypeVariable(b)) => *a == *b,
            (Type::UserDefined(a), Type::UserDefined(b)) => *a == *b,
            (Type::TypeApplication(c, xs), Type::TypeApplication(d, ys)) => {
                if xs.len() != ys.len() {
                    proof {
                        lemma_terms_of_equal(xs@, ys@);
                    }
                    return false;
                }
                let mut i: usize = 0;
                while i < xs.len()
                    invariant
                        i <= xs.len(),
                        xs.len() == ys.len(),
                        forall|j: int| 0 <= j < i ==> xs@[j]@ == ys@[j]@,
                    decreases xs.len() - i,
                {
                    if !xs[i].eq(&ys[i]) {
                        proof {
                            lemma_terms_of_equal(xs@, ys@);
                        }
                        return false;
                    }
                    i += 1;
                }
                proof {
                    lemma_terms_of_equal(xs@, ys@);
                }
                (**c).eq(&**d)
            },
            (Type::Ref(a), Type::Ref(b)) => *a == *b,
            _ => false,
        }
    }
}

impl vstd::std_specs::cmp::PartialEqSpecImpl for Type {
    open spec fn obeys_eq_spec() -> bool {
        true
    }

    open spec fn eq_spec(&self, other: &Type) -> bool {
        self@ == other@
    }
}

impl Eq for Type {

}

/// The type of a definition: a plain type, or one that holds for every choice of the
/// quantified variables.
#[derive(Debug)]
pub enum GeneralizedType {
    MonoType(Type),
    PolyType(Vec<TypeVariableId>, Type),
}

/// The model of a [`GeneralizedType`].
pub enum Scheme {
    MonoType(Term),
    PolyType(Seq<TypeVariableId>, Term),
}

impl View for GeneralizedType {
    type V = Scheme;

    open spec fn view(&self) -> Scheme {
        match self {
            GeneralizedType::MonoType(t) => Scheme::MonoType(t@),
            GeneralizedType::PolyType(quantified, t) => Scheme::PolyType(quantified@, t@),
        }
    }
}

impl Clone for GeneralizedType {
    fn clone(&self) -> (copy: GeneralizedType)
        ensures
            copy@ == self@,
    {
        match self {
            GeneralizedType::MonoType(t) => GeneralizedType::MonoType(t.clone()),
            GeneralizedType::PolyType(quantified, t) => {
                let copied = quantified.clone();
                assert(copied@ =~= quantified@);
                GeneralizedType::PolyType(copied, t.clone())
            },
        }
    }
}

impl GeneralizedType {
    /// The type without its quantifiers.
    pub fn remove_forall(&self) -> (typ: &Type)
        ensures
            typ@ == self.body(),
    {
        match self {
            GeneralizedType::MonoType(t) => t,
            GeneralizedType::PolyType(_, t) => t,
        }
    }

    /// The model of the type without its quantifiers.
    pub open spec fn body(&self) -> Term {
        match self {
            GeneralizedType::MonoType(t) => t@,
            GeneralizedType::PolyType(_, t) => t@,
        }
    }

    /// The type, where there are no quantifiers.
    pub fn as_monotype(&self) -> (typ: &Type)
        requires
            self is MonoType,
        ensures
            typ@ == self.body(),
    {
        match self {
            GeneralizedType::MonoType(t) => t,
            GeneralizedType::PolyType(_, t) => t,
        }
    }

    /// The type, where there are no quantifiers.
    pub fn into_monotype(self) -> (typ: Type)
        requires
            self is MonoType,
        ensures
            typ@ == self.body(),
    {
        match self {
            GeneralizedType::MonoType(t) => t,
            GeneralizedType::PolyType(_, t) => t,
        }
    }
}

} // verus!
