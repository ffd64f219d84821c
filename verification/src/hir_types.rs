//! The types of the intermediate representation: primitives, functions and tuples. There
//! are no type variables, no user-defined types and no references among them.
use vstd::prelude::*;

verus! {

/// Signedness and width of an integer type.
#[derive(Clone, Copy, Debug, PartialEq, Eq, Hash, Structural)]
pub enum IntegerKind {
    I8,
    I16,
    I32,
    I64,
    Isz,
    U8,
    U16,
    U32,
    U64,
    Usz,
}

#[derive(Clone, Copy, Debug, PartialEq, Eq, Hash, Structural)]
pub enum PrimitiveType {
    Integer(IntegerKind),
    Float,
    Char,
    Boolean,
    Unit,
    Pointer,
}

#[derive(Debug)]
pub struct FunctionType {
    pub parameters: Vec<Type>,
    pub return_type: Box<Type>,
    pub is_varargs: bool,
}

#[derive(Debug)]
pub enum Type {
    Primitive(PrimitiveType),
    Function(FunctionType),
    Tuple(Vec<Type>),
}

/// The model of a [`Type`].
pub enum Layout {
    Primitive(PrimitiveType),
    /// Parameters, return type, varargs flag.
    Function(Seq<Layout>, Box<Layout>, bool),
    Tuple(Seq<Layout>),
}

/// Is the type made of primitives, functions and tuples alone, through and through: does it
/// hold no type variable, name no user-defined type, and is it no reference?
pub open spec fn is_concrete(layout: Layout) -> bool
    decreases layout,
{
    match layout {
        Layout::Primitive(_) => true,
        Layout::Function(parameters, return_type, _) => {
            &&& forall|i: int| 0 <= i < parameters.len() ==> is_concrete(#[trigger] parameters[i])
            &&& is_concrete(*return_type)
        },
        Layout::Tuple(fields) => forall|i: int| 0 <= i < fields.len() ==> is_concrete(#[trigger] fields[i]),
    }
}

/// Every type of the intermediate representation is concrete: there is no way to write a
/// type variable, a user-defined type or a reference among them.
pub proof fn lemma_layout_is_concrete(layout: Layout)
    ensures
        is_concrete(layout),
    decreases layout,
{
    match layout {
        Layout::Primitive(_) => {},
        Layout::Function(parameters, return_type, _) => {
            assert forall|i: int| 0 <= i < parameters.len() implies is_concrete(#[trigger] parameters[i]) by {
                lemma_layout_is_concrete(parameters[i]);
            }
            lemma_layout_is_concrete(*return_type);
        },
        Layout::Tuple(fields) => {
            assert forall|i: int| 0 <= i < fields.len() implies is_concrete(#[trigger] fields[i]) by {
                lemma_layout_is_concrete(fields[i]);
            }
        },
    }
}

/// The models of a list of types, in order.
pub open spec fn layouts_of(types: Seq<Type>) -> Seq<Layout>
    decreases types,
{
    Seq::new(
        types.len(),
        |i: int|
            if 0 <= i < types.len() {
                types[i].layout()
            } else {
                Layout::Primitive(PrimitiveType::Unit)
            },
    )
}

impl Type {
    /// The model of this type.
    pub open spec fn layout(&self) -> Layout
        decreases self,
    {
        match self {
            Type::Primitive(p) => Layout::Primitive(*p),
            Type::Function(f) => Layout::Function(
                layouts_of(f.parameters@),
                Box::new((*f.return_type).layout()),
                f.is_varargs,
            ),
            Type::Tuple(fields) => Layout::Tuple(layouts_of(fields@)),
        }
    }
}

impl View for Type {
    type V = Layout;

    open spec fn view(&self) -> Layout {
        self.layout()
    }
}

/// Two lists of types have the same models exactly when they have the same length and
/// agree position by position.
pub proof fn lemma_layouts_of_equal(a: Seq<Type>, b: Seq<Type>)
    ensures
        layouts_of(a) == layouts_of(b) <==> (a.len() == b.len() && forall|i: int|
            0 <= i < a.len() ==> a[i]@ == b[i]@),
{
    if layouts_of(a) == layouts_of(b) {
        assert(a.len() == layouts_of(a).len());
        assert(b.len() == layouts_of(b).len());
        assert forall|i: int| 0 <= i < a.len() implies a[i]@ == b[i]@ by {
            assert(layouts_of(a)[i] == a[i]@);
            assert(layouts_of(b)[i] == b[i]@);
        }
    }
    if a.len() == b.len() && (forall|i: int| 0 <= i < a.len() ==> a[i]@ == b[i]@) {
        assert(layouts_of(a) =~= layouts_of(b));
    }
}

/// The model of a list grows with the list.
pub proof fn lemma_layouts_of_push(a: Seq<Type>, t: Type)
    ensures
        layouts_of(a.push(t)) == layouts_of(a).push(t@),
{
    assert(layouts_of(a.push(t)) =~= layouts_of(a).push(t@));
}

/// Copies a list of types.
pub fn clone_layouts(types: &Vec<Type>) -> (copies: Vec<Type>)
    ensures
        layouts_of(copies@) == layouts_of(types@),
{
    let mut copies: Vec<Type> = Vec::new();
    let mut i: usize = 0;
    while i < types.len()
        invariant
            i <= types.len(),
            copies.len() == i,
            forall|j: int| 0 <= j < i ==> copies@[j]@ == types@[j]@,
        decreases types.len() - i,
    {
        copies.push(types[i].clone());
        i += 1;
    }
    proof {
        lemma_layouts_of_equal(copies@, types@);
    }
    copies
}

impl Clone for Type {
    #[verifier::loop_isolation(false)]
    fn clone(&self) -> (copy: Type)
        ensures
            copy@ == self@,
        decreases self,
    {
        match self {
            Type::Primitive(p) => Type::Primitive(*p),
            Type::Function(f) => {
                let mut parameters: Vec<Type> = Vec::new();
                let mut i: usize = 0;
                while i < f.parameters.len()
                    invariant
                        i <= f.parameters.len(),
                        parameters.len() == i,
                        forall|j: int| 0 <= j < i ==> parameters@[j]@ == f.parameters@[j]@,
                    decreases f.parameters.len() - i,
                {
                    parameters.push(f.parameters[i].clone());
                    i += 1;
                }
                proof {
                    lemma_layouts_of_equal(parameters@, f.parameters@);
                }
                Type::Function(
                    FunctionType {
                        parameters,
                        return_type: Box::new((*f.return_type).clone()),
                        is_varargs: f.is_varargs,
                    },
                )
            },
            Type::Tuple(fields) => {
                let mut copies: Vec<Type> = Vec::new();
                let mut i: usize = 0;
                while i < fields.len()
                    invariant
                        i <= fields.len(),
                        copies.len() == i,
                        forall|j: int| 0 <= j < i ==> copies@[j]@ == fields@[j]@,
                    decreases fields.len() - i,
                {
                    copies.push(fields[i].clone());
                    i += 1;
                }
                proof {
                    lemma_layouts_of_equal(copies@, fields@);
                }
                Type::Tuple(copies)
            },
        }
    }
}

impl Clone for FunctionType {
    fn clone(&self) -> (copy: FunctionType)
        ensures
            layouts_of(copy.parameters@) == layouts_of(self.parameters@),
            copy.return_type@ == self.return_type@,
            copy.is_varargs == self.is_varargs,
    {
        FunctionType {
            parameters: clone_layouts(&self.parameters),
            return_type: Box::new((*self.return_type).clone()),
            is_varargs: self.is_varargs,
        }
    }
}

impl PartialEq for Type {
    #[verifier::loop_isolation(false)]
    fn eq(&self, other: &Type) -> (same: bool)
        decreases self,
    {
        match (self, other) {
            (Type::Primitive(a), Type::Primitive(b)) => *a == *b,
            (Type::Function(f), Type::Function(g)) => {
                if f.is_varargs != g.is_varargs || f.parameters.len() != g.parameters.len() {
                    proof {
                        lemma_layouts_of_equal(f.parameters@, g.parameters@);
                    }
                    return false;
                }
                let mut i: usize = 0;
                while i < f.parameters.len()
                    invariant
                        i <= f.parameters.len(),
                        f.parameters.len() == g.parameters.len(),
                        forall|j: int| 0 <= j < i ==> f.parameters@[j]@ == g.parameters@[j]@,
                    decreases f.parameters.len() - i,
                {
                    if !f.parameters[i].eq(&g.parameters[i]) {
                        proof {
                            lemma_layouts_of_equal(f.parameters@, g.parameters@);
                        }
                        return false;
                    }
                    i += 1;
                }
                proof {
                    lemma_layouts_of_equal(f.parameters@, g.parameters@);
                }
                (*f.return_type).eq(&*g.return_type)
            },
            (Type::Tuple(xs), Type::Tuple(ys)) => {
                if xs.len() != ys.len() {
                    proof {
                        lemma_layouts_of_equal(xs@, ys@);
                    }
                    return false;
                }
                let mut i: usize = 0;
                while i < xs.len()
                    invariant
                        i <= xs.len(),
                        xs.len() == ys.len(),
                        forall|j: int| 0 <= j < i ==> xs@[j]@ == ys@[j]@,
                    decreases xs.len() - i,
                {
                    if !xs[i].eq(&ys[i]) {
                        proof {
                            lemma_layouts_of_equal(xs@, ys@);
                        }
                        return false;
                    }
                    i += 1;
                }
                proof {
                    lemma_layouts_of_equal(xs@, ys@);
                }
                true
            },
            _ => false,
        }
    }
}

impl vstd::std_specs::cmp::PartialEqSpecImpl for Type {
    open spec fn obeys_eq_spec() -> bool {
        true
    }

    open spec fn eq_spec(&self, other: &Type) -> bool {
        self@ == other@
    }
}

impl Eq for Type {

}

/// The size in bytes of a pointer on the machine that the compiler runs on, which is the
/// machine it compiles for.
pub fn ptr_size() -> (size: usize)
    ensures
        size == pointer_size(),
{
    (usize::BITS / 8) as usize
}

/// The size in bytes of a pointer.
pub open spec fn pointer_size() -> usize {
    (usize::BITS / 8) as usize
}

/// The size in bytes of an integer of the given kind.
pub open spec fn integer_size(kind: IntegerKind) -> nat {
    match kind {
        IntegerKind::I8 | IntegerKind::U8 => 1,
        IntegerKind::I16 | IntegerKind::U16 => 2,
        IntegerKind::I32 | IntegerKind::U32 => 4,
        IntegerKind::I64 | IntegerKind::U64 => 8,
        IntegerKind::Isz | IntegerKind::Usz => pointer_size() as nat,
    }
}

/// The size in bytes of a value of the type: integers by their width, floats 8, characters,
/// booleans and unit 1, pointers and functions the size of a pointer, and a tuple the sum
/// of its fields.
pub open spec fn size_of(layout: Layout) -> nat
    decreases layout,
{
    match layout {
        Layout::Primitive(PrimitiveType::Integer(kind)) => integer_size(kind),
        Layout::Primitive(PrimitiveType::Float) => 8,
        Layout::Primitive(PrimitiveType::Char) => 1,
        Layout::Primitive(PrimitiveType::Boolean) => 1,
        Layout::Primitive(PrimitiveType::Unit) => 1,
        Layout::Primitive(PrimitiveType::Pointer) => pointer_size() as nat,
        Layout::Function(_, _, _) => pointer_size() as nat,
        Layout::Tuple(fields) => sizes_of(fields, fields.len()),
    }
}

/// The sum of the sizes of the first `n` of the fields.
pub open spec fn sizes_of(fields: Seq<Layout>, n: nat) -> nat
    decreases fields, n,
{
    if n == 0 || n > fields.len() {
        0
    } else {
        sizes_of(fields, (n - 1) as nat) + size_of(fields[n - 1])
    }
}

} // verus!
