//! The encoding of types for a solver of first-order formulas: each type becomes a sort.
//! Integers and characters are integers, booleans and unit are booleans, floats are reals;
//! a user-defined type is a datatype with a constructor for each variant; a function type
//! and a reference to a type are sorts of which nothing is known but the name.
use vstd::prelude::*;
use vstd::string::StringExecFns;
use crate::cache::{Binding, ModuleCache, Shape, TypeBinding, TypeInfoBody};
use crate::error::Fault;
use crate::infer_state::{decimal, decimal_text};
use crate::refine_sums::{constructors_defined, sum_constructors};
use crate::refine_terms::{SolverTermModel, TableModel, TermTable};
use crate::paint::{joined, lettered, texts, variables_of};
use crate::typeprinter::{show, type_names, Look, TypePrinter};
use crate::types::{terms_of, FunctionType, GeneralizedType, PrimitiveType, Scheme, Term, Type, TypeInfoId};
use crate::unify::{follow, follow_bindings_in_cache, RECURSION_LIMIT};

verus! {

/// A sort of the solver. A datatype is known by its name; what it is made of is declared
/// in the context.
#[derive(Debug)]
pub enum Sort {
    Int,
    Bool,
    Real,
    /// The sort of texts.
    Text,
    /// A sort of which nothing is known but its name.
    Uninterpreted(String),
    Datatype(String),
}

/// The model of a [`Sort`].
pub enum SortModel {
    Int,
    Bool,
    Real,
    Text,
    Uninterpreted(Seq<char>),
    Datatype(Seq<char>),
}

impl View for Sort {
    type V = SortModel;

    open spec fn view(&self) -> SortModel {
        match self {
            Sort::Int => SortModel::Int,
            Sort::Bool => SortModel::Bool,
            Sort::Real => SortModel::Real,
            Sort::Text => SortModel::Text,
            Sort::Uninterpreted(name) => SortModel::Uninterpreted(name@),
            Sort::Datatype(name) => SortModel::Datatype(name@),
        }
    }
}

impl Clone for Sort {
    fn clone(&self) -> (copy: Sort)
        ensures
            copy@ == self@,
    {
        match self {
            Sort::Int => Sort::Int,
            Sort::Bool => Sort::Bool,
            Sort::Real => Sort::Real,
            Sort::Text => Sort::Text,
            Sort::Uninterpreted(name) => Sort::Uninterpreted(name.clone()),
            Sort::Datatype(name) => Sort::Datatype(name.clone()),
        }
    }
}

/// A field of a constructor: the name of the function that reads it, and its sort.
#[derive(Debug)]
pub struct Accessor {
    pub name: String,
    pub sort: Sort,
}

/// A constructor of a datatype.
#[derive(Debug)]
pub struct Constructor {
    pub name: String,
    pub fields: Vec<Accessor>,
}

/// The model of a [`Constructor`].
pub struct ConstructorModel {
    pub name: Seq<char>,
    pub fields: Seq<(Seq<char>, SortModel)>,
}

/// The models of the accessors, in order.
pub open spec fn accessors_of(fields: Seq<Accessor>) -> Seq<(Seq<char>, SortModel)> {
    Seq::new(fields.len(), |i: int| (fields[i].name@, fields[i].sort@))
}

impl View for Constructor {
    type V = ConstructorModel;

    open spec fn view(&self) -> ConstructorModel {
        ConstructorModel { name: self.name@, fields: accessors_of(self.fields@) }
    }
}

/// The models of the constructors, in order.
pub open spec fn constructors_of(constructors: Seq<Constructor>) -> Seq<ConstructorModel> {
    Seq::new(constructors.len(), |i: int| constructors[i]@)
}

/// A datatype that was declared to the solver.
#[derive(Debug)]
pub struct Datatype {
    pub name: String,
    pub constructors: Vec<Constructor>,
}

/// The model of a [`Datatype`].
pub struct DatatypeModel {
    pub name: Seq<char>,
    pub constructors: Seq<ConstructorModel>,
}

impl View for Datatype {
    type V = DatatypeModel;

    open spec fn view(&self) -> DatatypeModel {
        DatatypeModel { name: self.name@, constructors: constructors_of(self.constructors@) }
    }
}

/// What was declared to the solver so far.
pub struct RefinementContext {
    /// The sort of each type that was encoded.
    pub types: Vec<(Type, Sort)>,
    /// The datatypes, in the order of their declaration.
    pub datatypes: Vec<Datatype>,
    /// The number of the next constant that is hidden from the reader of a model.
    pub next_hidden: usize,
    /// The terms and the functions that were made, and what is known of the definitions.
    pub table: TermTable,
}

/// The model of a [`RefinementContext`].
pub struct Encoding {
    pub types: Seq<(Term, SortModel)>,
    pub datatypes: Seq<DatatypeModel>,
    pub next_hidden: usize,
    pub table: TableModel,
}

impl View for RefinementContext {
    type V = Encoding;

    open spec fn view(&self) -> Encoding {
        Encoding {
            types: Seq::new(self.types@.len(), |i: int| (self.types@[i].0@, self.types@[i].1@)),
            datatypes: Seq::new(self.datatypes@.len(), |i: int| self.datatypes@[i]@),
            next_hidden: self.next_hidden,
            table: self.table@,
        }
    }
}

/// The sort that the type was given, among the first `n` that were encoded.
pub open spec fn known(types: Seq<(Term, SortModel)>, n: nat, t: Term) -> Option<SortModel>
    decreases n,
{
    if n == 0 || n > types.len() {
        None
    } else if types[n - 1].0 == t {
        Some(types[n - 1].1)
    } else {
        known(types, (n - 1) as nat, t)
    }
}

/// What is declared once the term is put in the table.
pub open spec fn with_term(e: Encoding, term: SolverTermModel) -> Encoding {
    Encoding { table: TableModel { terms: e.table.terms.push(term), ..e.table }, ..e }
}

/// The sort of a primitive type.
pub open spec fn primitive_sort(primitive: PrimitiveType) -> SortModel {
    match primitive {
        PrimitiveType::IntegerType(_) => SortModel::Int,
        PrimitiveType::FloatType => SortModel::Real,
        PrimitiveType::CharType => SortModel::Int,
        PrimitiveType::BooleanType => SortModel::Bool,
        PrimitiveType::UnitType => SortModel::Bool,
        PrimitiveType::Ptr => SortModel::Int,
    }
}

/// The type as it is shown without colours, its type variables named a, b, c and so on.
pub open spec fn text_of(t: Term, cache: &ModuleCache) -> Result<Seq<char>, Fault> {
    match variables_of(Scheme::MonoType(t), cache) {
        Err(fault) => Err(fault),
        Ok(variables) => match lettered(Map::empty(), variables, 0, 0) {
            Err(fault) => Err(fault),
            Ok((names, _)) => match show(
                t,
                Look { names, debug: true, store: cache.store(), types: type_names(cache) },
                RECURSION_LIMIT as nat,
            ) {
                Err(fault) => Err(fault),
                Ok(pieces) => Ok(joined(texts(pieces), pieces.len())),
            },
        },
    }
}

/// Each of the first `n` types, followed through the bindings at its top.
pub open spec fn followed_each(types: Seq<Term>, n: nat, cache: &ModuleCache) -> Result<Seq<Term>, Fault>
    decreases n,
{
    if n == 0 || n > types.len() {
        Ok(Seq::empty())
    } else {
        match (
            followed_each(types, (n - 1) as nat, cache),
            follow(types[n - 1], Map::empty(), cache.store(), RECURSION_LIMIT as nat),
        ) {
            (Err(fault), _) => Err(fault),
            (Ok(_), Err(fault)) => Err(fault),
            (Ok(before), Ok(t)) => Ok(before.push(t)),
        }
    }
}

/// An outcome of the encoding of a type, and what is declared after.
pub type Encoded<T> = (Result<T, Fault>, Encoding);

/// The sort of the type, and what is declared once the type is encoded.
pub open spec fn sort_of(t: Term, e: Encoding, cache: &ModuleCache, fuel: nat) -> Encoded<SortModel>
    decreases fuel, 0nat, 0nat,
{
    if fuel == 0 {
        (Err(Fault::RecursionLimit), e)
    } else {
        match t {
            Term::Primitive(primitive) => (Ok(primitive_sort(primitive)), e),
            Term::Function(parameters, return_type, _, _) => function_sort(
                t,
                parameters,
                *return_type,
                e,
                cache,
                (fuel - 1) as nat,
            ),
            Term::TypeVariable(id) => if id >= cache.store().len() {
                (Err(Fault::UnknownTypeVariable(id)), e)
            } else {
                match cache.store()[id as int] {
                    Binding::Bound(bound) => sort_of(bound, e, cache, (fuel - 1) as nat),
                    // A type that may be any type is taken for the integers.
                    Binding::Unbound(_, _) => (Ok(SortModel::Int), e),
                }
            },
            Term::UserDefined(id) => user_defined_sort(t, id, e, cache, (fuel - 1) as nat),
            Term::TypeApplication(constructor, args) => application_sort(
                *constructor,
                args,
                e,
                cache,
                (fuel - 1) as nat,
            ),
            Term::Ref(_) => (Err(Fault::KindError), e),
        }
    }
}

/// The sorts of the types from position `at` on, each encoded in turn.
pub open spec fn sorts_of(types: Seq<Term>, at: nat, e: Encoding, cache: &ModuleCache, fuel: nat) -> Encoded<
    Seq<SortModel>,
>
    decreases fuel, 1nat, types.len() - at,
{
    if at >= types.len() {
        (Ok(Seq::empty()), e)
    } else {
        let (first, e1) = sort_of(types[at as int], e, cache, fuel);
        match first {
            Err(fault) => (Err(fault), e),
            Ok(sort) => {
                let (rest, e2) = sorts_of(types, at + 1, e1, cache, fuel);
                match rest {
                    Err(fault) => (Err(fault), e),
                    Ok(sorts) => (Ok(seq![sort] + sorts), e2),
                }
            },
        }
    }
}

/// The sort of a function type: a sort of its own for each function type, named as the
/// type is shown. The parameters and the result are encoded as well, for the datatypes
/// that this declares.
pub open spec fn function_sort(
    t: Term,
    parameters: Seq<Term>,
    return_type: Term,
    e: Encoding,
    cache: &ModuleCache,
    fuel: nat,
) -> Encoded<SortModel>
    decreases fuel, 2nat, 0nat,
{
    match (
        followed_each(parameters, parameters.len(), cache),
        follow(return_type, Map::empty(), cache.store(), RECURSION_LIMIT as nat),
    ) {
        (Err(fault), _) => (Err(fault), e),
        (Ok(_), Err(fault)) => (Err(fault), e),
        (Ok(args), Ok(result)) => match known(e.types, e.types.len(), t) {
            Some(sort) => (Ok(sort), e),
            None => {
                let (first, e1) = sorts_of(args, 0, e, cache, fuel);
                match first {
                    Err(fault) => (Err(fault), e),
                    Ok(_) => {
                        let (second, e2) = sort_of(result, e1, cache, fuel);
                        match (second, text_of(t, cache), t) {
                            (Err(fault), _, _) => (Err(fault), e),
                            (Ok(_), Err(fault), _) => (Err(fault), e),
                            (Ok(_), Ok(name), Term::Function(_, _, environment, is_varargs)) => {
                                let sort = SortModel::Uninterpreted(name);
                                let key = Term::Function(args, Box::new(result), environment, is_varargs);
                                (Ok(sort), Encoding { types: e2.types.push((key, sort)), ..e2 })
                            },
                            (Ok(_), Ok(_), _) => (Err(Fault::Malformed), e),
                        }
                    },
                }
            },
        },
    }
}

/// The sort of a type applied to arguments: that of the user-defined type, or for a
/// reference a sort of its own for each type that is referred to.
pub open spec fn application_sort(constructor: Term, args: Seq<Term>, e: Encoding, cache: &ModuleCache, fuel: nat) -> Encoded<
    SortModel,
>
    decreases fuel, 4nat, 0nat,
{
    match (
        followed_each(args, args.len(), cache),
        follow(constructor, Map::empty(), cache.store(), RECURSION_LIMIT as nat),
    ) {
        (Err(fault), _) => (Err(fault), e),
        (Ok(_), Err(fault)) => (Err(fault), e),
        (Ok(followed), Ok(applied)) => match applied {
            Term::Ref(_) => if followed.len() != 1 {
                (Err(Fault::KindError), e)
            } else {
                match text_of(followed[0], cache) {
                    Err(fault) => (Err(fault), e),
                    Ok(referent) => {
                        let key = Term::TypeApplication(Box::new(applied), followed);
                        match known(e.types, e.types.len(), key) {
                            Some(sort) => (Ok(sort), e),
                            None => {
                                let sort = SortModel::Uninterpreted("ref_"@ + referent);
                                (Ok(sort), Encoding { types: e.types.push((key, sort)), ..e })
                            },
                        }
                    },
                }
            },
            Term::UserDefined(id) => user_defined_sort(applied, id, e, cache, fuel),
            _ => (Err(Fault::KindError), e),
        },
    }
}

/// The accessors of the fields of a struct: each field by its name.
pub open spec fn struct_accessors(fields: Seq<(Seq<char>, Term)>, sorts: Seq<SortModel>) -> Seq<(Seq<char>, SortModel)> {
    Seq::new(fields.len(), |i: int| (fields[i].0, sorts[i]))
}

/// The types of the fields of a struct.
pub open spec fn field_types(fields: Seq<(Seq<char>, Term)>) -> Seq<Term> {
    Seq::new(fields.len(), |i: int| fields[i].1)
}

/// The sort of a user-defined type: the datatype that is declared for it where the type
/// was not encoded before.
pub open spec fn user_defined_sort(key: Term, id: TypeInfoId, e: Encoding, cache: &ModuleCache, fuel: nat) -> Encoded<
    SortModel,
>
    decreases fuel, 3nat, 0nat,
{
    match known(e.types, e.types.len(), key) {
        Some(sort) => (Ok(sort), e),
        None => match text_of(key, cache) {
            Err(fault) => (Err(fault), e),
            Ok(name) => if id.0 >= cache.type_infos@.len() {
                (Err(Fault::UnknownType(id.0)), e)
            } else {
                let (found, e1) = match cache.type_infos@[id.0 as int].body@ {
                    Shape::Union(variants) => {
                        let (made, e1) = sum_constructors(name, variants, 0, e, cache, fuel);
                        match made {
                            Err(fault) => (Err(fault), e),
                            Ok((constructors, owners)) => (
                                Ok(SortModel::Datatype(name)),
                                Encoding {
                                    datatypes: e1.datatypes.push(DatatypeModel { name, constructors }),
                                    table: constructors_defined(e1.table, name, owners, 0),
                                    ..e1
                                },
                            ),
                        }
                    },
                    Shape::Struct(fields) => {
                        let (made, e1) = sorts_of(field_types(fields), 0, e, cache, fuel);
                        match made {
                            Err(fault) => (Err(fault), e),
                            Ok(sorts) => {
                                let datatype = name + "$"@ + decimal(id.0 as nat);
                                (
                                    Ok(SortModel::Datatype(datatype)),
                                    Encoding {
                                        datatypes: e1.datatypes.push(
                                            DatatypeModel {
                                                name: datatype,
                                                constructors: seq![
                                                    ConstructorModel {
                                                        name: datatype,
                                                        fields: struct_accessors(fields, sorts),
                                                    },
                                                ],
                                            },
                                        ),
                                        ..e1
                                    },
                                )
                            },
                        }
                    },
                    Shape::Alias(aliased) => sort_of(aliased, e, cache, fuel),
                    Shape::Unknown => (Err(Fault::UnknownTypeBody(id.0)), e),
                };
                match found {
                    Err(fault) => (Err(fault), e),
                    Ok(sort) => (Ok(sort), Encoding { types: e1.types.push((key, sort)), ..e1 }),
                }
            },
        },
    }
}

/// Does `result` hold the outcome, with `after` what is declared after; or the fault of
/// the outcome?
pub open spec fn encodes(result: Result<Sort, Fault>, expected: Encoded<SortModel>, after: Encoding) -> bool {
    match expected.0 {
        Ok(sort) => result matches Ok(found) && found@ == sort && after == expected.1,
        Err(fault) => result matches Err(f) && f == fault,
    }
}

/// The type as it is shown without colours.
pub fn type_text(typ: &Type, cache: &ModuleCache) -> (result: Result<String, Fault>)
    ensures
        match text_of(typ@, cache) {
            Ok(text) => result matches Ok(found) && found@ == text,
            Err(fault) => result matches Err(f) && f == fault,
        },
{
    let printer = match TypePrinter::display_type(GeneralizedType::MonoType(typ.clone()), cache) {
        Err(fault) => {
            return Err(fault);
        },
        Ok(printer) => printer,
    };
    printer.plain(cache)
}

/// Each of the types, followed through the bindings at its top.
pub fn follow_each(types: &Vec<Type>, cache: &ModuleCache) -> (result: Result<Vec<Type>, Fault>)
    ensures
        match followed_each(terms_of(types@), types@.len() as nat, cache) {
            Ok(followed) => result matches Ok(found) && terms_of(found@) == followed,
            Err(fault) => result matches Err(f) && f == fault,
        },
{
    let ghost terms = terms_of(types@);
    let mut found: Vec<Type> = Vec::new();
    assert(terms_of(found@) =~= Seq::<Term>::empty());
    let mut i: usize = 0;
    while i < types.len()
        invariant
            i <= types@.len(),
            terms == terms_of(types@),
            followed_each(terms, i as nat, cache) == Ok::<Seq<Term>, Fault>(terms_of(found@)),
        decreases types@.len() - i,
    {
        assert(terms[i as int] == types@[i as int]@);
        match follow_bindings_in_cache(&types[i], cache) {
            Err(fault) => {
                proof {
                    lemma_followed_fails(terms, (i + 1) as nat, types@.len() as nat, cache);
                }
                return Err(fault);
            },
            Ok(t) => {
                proof {
                    crate::types::lemma_terms_of_push(found@, t);
                }
                found.push(t);
            },
        }
        i += 1;
    }
    Ok(found)
}

/// Where the first `n` types cannot all be followed, no more of them can.
pub proof fn lemma_followed_fails(types: Seq<Term>, n: nat, m: nat, cache: &ModuleCache)
    requires
        n <= m <= types.len(),
        followed_each(types, n, cache) is Err,
    ensures
        followed_each(types, m, cache) == followed_each(types, n, cache),
    decreases m - n,
{
    if n < m {
        lemma_followed_fails(types, n, (m - 1) as nat, cache);
    }
}

impl RefinementContext {
    /// A context in which nothing is declared.
    pub fn new() -> (context: RefinementContext)
        ensures
            context@ == (Encoding {
                types: Seq::empty(),
                datatypes: Seq::empty(),
                next_hidden: 0,
                table: TableModel { terms: Seq::empty(), functions: Seq::empty(), values: Map::empty() },
            }),
    {
        let context = RefinementContext {
            types: Vec::new(),
            datatypes: Vec::new(),
            next_hidden: 0,
            table: TermTable::new(),
        };
        assert(context@.types =~= Seq::empty());
        assert(context@.datatypes =~= Seq::empty());
        context
    }

    /// The sort that the type was given.
    pub fn known_sort(&self, typ: &Type) -> (found: Option<Sort>)
        ensures
            match known(self@.types, self@.types.len(), typ@) {
                Some(sort) => found matches Some(s) && s@ == sort,
                None => found.is_none(),
            },
    {
        let ghost types = self@.types;
        let mut i: usize = self.types.len();
        while i > 0
            invariant
                i <= self.types@.len(),
                types == self@.types,
                known(types, types.len(), typ@) == known(types, i as nat, typ@),
            decreases i,
        {
            i -= 1;
            assert(types[i as int] == (self.types@[i as int].0@, self.types@[i as int].1@));
            if self.types[i].0 == *typ {
                return Some(self.types[i].1.clone());
            }
        }
        None
    }

    pub fn remember(&mut self, typ: Type, sort: Sort)
        ensures
            final(self)@ == (Encoding { types: old(self)@.types.push((typ@, sort@)), ..old(self)@ }),
    {
        self.types.push((typ, sort));
        assert(self@.types =~= old(self)@.types.push((typ@, sort@)));
        assert(self@.datatypes =~= old(self)@.datatypes);
    }

    pub fn declare(&mut self, datatype: Datatype)
        ensures
            final(self)@ == (Encoding { datatypes: old(self)@.datatypes.push(datatype@), ..old(self)@ }),
    {
        self.datatypes.push(datatype);
        assert(self@.types =~= old(self)@.types);
        assert(self@.datatypes =~= old(self)@.datatypes.push(datatype@));
    }

    /// Encodes the type: returns its sort, and declares what the sort is made of.
    pub fn type_to_sort(&mut self, typ: &Type, cache: &ModuleCache, fuel: u32) -> (result: Result<Sort, Fault>)
        ensures
            encodes(result, sort_of(typ@, old(self)@, cache, fuel as nat), final(self)@),
        decreases fuel, 0nat, 0nat,
    {
        if fuel == 0 {
            return Err(Fault::RecursionLimit);
        }
        match typ {
            Type::Primitive(primitive) => Ok(self.primitive_type_to_sort(primitive)),
            Type::Function(function) => {
                assert(typ@ == Term::Function(
                    terms_of(function.parameters@),
                    Box::new(function.return_type@),
                    Box::new(function.environment@),
                    function.is_varargs,
                ));
                self.function_to_sort(typ, function, cache, fuel - 1)
            },
            Type::TypeVariable(id) => {
                if *id >= cache.type_bindings.len() {
                    return Err(Fault::UnknownTypeVariable(*id));
                }
                assert(cache.store()[*id as int] == cache.type_bindings@[*id as int]@);
                match &cache.type_bindings[*id] {
                    TypeBinding::Bound(binding) => self.type_to_sort(binding, cache, fuel - 1),
                    TypeBinding::Unbound(_, _) => Ok(Sort::Int),
                }
            },
            Type::UserDefined(id) => self.user_defined_type_to_sort(typ, *id, cache, fuel - 1),
            Type::TypeApplication(constructor, args) => {
                assert(typ@ == Term::TypeApplication(Box::new(constructor@), terms_of(args@)));
                self.type_application_to_sort(constructor, args, cache, fuel - 1)
            },
            Type::Ref(_) => Err(Fault::KindError),
        }
    }

    pub fn primitive_type_to_sort(&self, typ: &PrimitiveType) -> (sort: Sort)
        ensures
            sort@ == primitive_sort(*typ),
    {
        match typ {
            PrimitiveType::IntegerType(_) => Sort::Int,
            PrimitiveType::FloatType => Sort::Real,
            PrimitiveType::CharType => Sort::Int,
            PrimitiveType::BooleanType => Sort::Bool,
            PrimitiveType::UnitType => Sort::Bool,
            PrimitiveType::Ptr => Sort::Int,
        }
    }

    /// Encodes each of the types from position `at` on, and adds their sorts to `sorts`.
    pub fn types_to_sorts(&mut self, types: &Vec<Type>, at: usize, sorts: &mut Vec<Sort>, cache: &ModuleCache, fuel: u32) -> (result:
        Result<(), Fault>)
        ensures
            match sorts_of(terms_of(types@), at as nat, old(self)@, cache, fuel as nat).0 {
                Ok(found) => result is Ok && sort_models(final(sorts)@) == sort_models(old(sorts)@) + found
                    && final(self)@ == sorts_of(terms_of(types@), at as nat, old(self)@, cache, fuel as nat).1,
                Err(fault) => result == Err::<(), Fault>(fault),
            },
        decreases fuel, 1nat, types@.len() - at,
    {
        let ghost before = sort_models(sorts@);
        let ghost terms = terms_of(types@);
        if at >= types.len() {
            assert(before + Seq::<SortModel>::empty() =~= before);
            return Ok(());
        }
        assert(terms[at as int] == types@[at as int]@);
        let sort = match self.type_to_sort(&types[at], cache, fuel) {
            Err(fault) => {
                return Err(fault);
            },
            Ok(sort) => sort,
        };
        let ghost first = sort@;
        sorts.push(sort);
        assert(sort_models(sorts@) =~= before.push(first));
        let ghost e1 = self@;
        match self.types_to_sorts(types, at + 1, sorts, cache, fuel) {
            Err(fault) => Err(fault),
            Ok(()) => {
                proof {
                    let rest = sorts_of(terms, (at + 1) as nat, e1, cache, fuel as nat).0->Ok_0;
                    assert(before.push(first) + rest =~= before + (seq![first] + rest));
                }
                Ok(())
            },
        }
    }

    pub fn function_to_sort(&mut self, typ: &Type, function: &FunctionType, cache: &ModuleCache, fuel: u32) -> (result:
        Result<Sort, Fault>)
        requires
            typ@ == Term::Function(
                terms_of(function.parameters@),
                Box::new(function.return_type@),
                Box::new(function.environment@),
                function.is_varargs,
            ),
        ensures
            encodes(
                result,
                function_sort(
                    typ@,
                    terms_of(function.parameters@),
                    function.return_type@,
                    old(self)@,
                    cache,
                    fuel as nat,
                ),
                final(self)@,
            ),
        decreases fuel, 2nat, 0nat,
    {
        // There are no sorts of functions: a sort of which nothing is known is used instead
        let args = match follow_each(&function.parameters, cache) {
            Err(fault) => {
                return Err(fault);
            },
            Ok(args) => args,
        };
        let return_type = match follow_bindings_in_cache(&function.return_type, cache) {
            Err(fault) => {
                return Err(fault);
            },
            Ok(return_type) => return_type,
        };
        match self.known_sort(typ) {
            Some(sort) => {
                return Ok(sort);
            },
            None => {},
        }
        // The parameters and the result are encoded all the same: this declares the
        // constructors of the sum types among them, which other encodings rely on.
        let mut sorts: Vec<Sort> = Vec::new();
        match self.types_to_sorts(&args, 0, &mut sorts, cache, fuel) {
            Err(fault) => {
                return Err(fault);
            },
            Ok(()) => {},
        }
        match self.type_to_sort(&return_type, cache, fuel) {
            Err(fault) => {
                return Err(fault);
            },
            Ok(_) => {},
        }
        let name = match type_text(typ, cache) {
            Err(fault) => {
                return Err(fault);
            },
            Ok(name) => name,
        };
        let sort = Sort::Uninterpreted(name);
        let key = Type::Function(
            FunctionType {
                parameters: args,
                return_type: Box::new(return_type),
                environment: Box::new((*function.environment).clone()),
                is_varargs: function.is_varargs,
            },
        );
        self.remember(key, sort.clone());
        Ok(sort)
    }

    pub fn type_application_to_sort(&mut self, typ: &Type, args: &Vec<Type>, cache: &ModuleCache, fuel: u32) -> (result:
        Result<Sort, Fault>)
        ensures
            encodes(
                result,
                application_sort(typ@, terms_of(args@), old(self)@, cache, fuel as nat),
                final(self)@,
            ),
        decreases fuel, 5nat, 0nat,
    {
        let args = match follow_each(args, cache) {
            Err(fault) => {
                return Err(fault);
            },
            Ok(args) => args,
        };
        let typ = match follow_bindings_in_cache(typ, cache) {
            Err(fault) => {
                return Err(fault);
            },
            Ok(typ) => typ,
        };
        match &typ {
            Type::Ref(_) => {
                if args.len() != 1 {
                    return Err(Fault::KindError);
                }
                assert(terms_of(args@)[0] == args@[0]@);
                let referent = match type_text(&args[0], cache) {
                    Err(fault) => {
                        return Err(fault);
                    },
                    Ok(referent) => referent,
                };
                let name = String::from_str("ref_").concat(referent.as_str());
                let key = Type::TypeApplication(Box::new(typ), args);
                match self.known_sort(&key) {
                    Some(sort) => {
                        return Ok(sort);
                    },
                    None => {},
                }
                let sort = Sort::Uninterpreted(name);
                self.remember(key, sort.clone());
                Ok(sort)
            },
            Type::UserDefined(id) => self.user_defined_type_to_sort(&typ, *id, cache, fuel),
            _ => Err(Fault::KindError),
        }
    }

    pub fn user_defined_type_to_sort(&mut self, typ: &Type, id: TypeInfoId, cache: &ModuleCache, fuel: u32) -> (result:
        Result<Sort, Fault>)
        ensures
            encodes(result, user_defined_sort(typ@, id, old(self)@, cache, fuel as nat), final(self)@),
        decreases fuel, 4nat, 0nat,
    {
        match self.known_sort(typ) {
            Some(sort) => {
                return Ok(sort);
            },
            None => {},
        }
        let name = match type_text(typ, cache) {
            Err(fault) => {
                return Err(fault);
            },
            Ok(name) => name,
        };
        if id.0 >= cache.type_infos.len() {
            return Err(Fault::UnknownType(id.0));
        }
        let sort = match &cache.type_infos[id.0].body {
            TypeInfoBody::Union(variants) => {
                match self.sum_type_to_sort(&name, variants, cache, fuel) {
                    Err(fault) => {
                        return Err(fault);
                    },
                    Ok(sort) => sort,
                }
            },
            TypeInfoBody::Struct(fields) => {
                let ghost all = cache.type_infos@[id.0 as int].body@->Struct_0;
                let mut types: Vec<Type> = Vec::new();
                let mut i: usize = 0;
                assert(terms_of(types@) =~= field_types(all).take(0));
                while i < fields.len()
                    invariant
                        i <= fields@.len(),
                        all.len() == fields@.len(),
                        forall|j: int| 0 <= j < fields@.len() ==> all[j] == (fields@[j].name@, fields@[j].field_type@),
                        terms_of(types@) == field_types(all).take(i as int),
                    decreases fields@.len() - i,
                {
                    let field_type = fields[i].field_type.clone();
                    proof {
                        crate::types::lemma_terms_of_push(types@, field_type);
                        assert(terms_of(types@).push(field_type@) =~= field_types(all).take(i + 1));
                    }
                    types.push(field_type);
                    i += 1;
                }
                assert(field_types(all).take(fields@.len() as int) =~= field_types(all));
                let mut sorts: Vec<Sort> = Vec::new();
                assert(sort_models(sorts@) =~= Seq::<SortModel>::empty());
                match self.types_to_sorts(&types, 0, &mut sorts, cache, fuel) {
                    Err(fault) => {
                        return Err(fault);
                    },
                    Ok(()) => {},
                }
                proof {
                    let found = sorts_of(field_types(all), 0, old(self)@, cache, fuel as nat).0->Ok_0;
                    assert(Seq::<SortModel>::empty() + found =~= found);
                    lemma_sorts_len(field_types(all), 0, old(self)@, cache, fuel as nat);
                }
                let name = name.concat("$").concat(decimal_text(id.0 as u64).as_str());
                let mut accessors: Vec<Accessor> = Vec::new();
                let mut i: usize = 0;
                while i < fields.len()
                    invariant
                        i <= fields@.len(),
                        sorts@.len() == fields@.len(),
                        all.len() == fields@.len(),
                        forall|j: int| 0 <= j < fields@.len() ==> all[j] == (fields@[j].name@, fields@[j].field_type@),
                        accessors@.len() == i,
                        forall|j: int|
                            0 <= j < i ==> (#[trigger] accessors@[j]).name@ == all[j].0 && accessors@[j].sort@
                                == sorts@[j]@,
                    decreases fields@.len() - i,
                {
                    accessors.push(Accessor { name: fields[i].name.clone(), sort: sorts[i].clone() });
                    i += 1;
                }
                let constructor = Constructor { name: name.clone(), fields: accessors };
                let ghost only = constructor@;
                assert(only.fields =~= struct_accessors(all, sort_models(sorts@)));
                let mut constructors: Vec<Constructor> = Vec::new();
                constructors.push(constructor);
                let datatype = Datatype { name: name.clone(), constructors };
                assert(constructors_of(datatype.constructors@) =~= seq![only]);
                self.declare(datatype);
                Sort::Datatype(name)
            },
            TypeInfoBody::Alias(aliased) => {
                match self.type_to_sort(aliased, cache, fuel) {
                    Err(fault) => {
                        return Err(fault);
                    },
                    Ok(sort) => sort,
                }
            },
            TypeInfoBody::Unknown => {
                return Err(Fault::UnknownTypeBody(id.0));
            },
        };
        self.remember(typ.clone(), sort.clone());
        Ok(sort)
    }
}

/// There is a sort for each of the types.
pub proof fn lemma_sorts_len(types: Seq<Term>, at: nat, e: Encoding, cache: &ModuleCache, fuel: nat)
    requires
        at <= types.len(),
        sorts_of(types, at, e, cache, fuel).0 is Ok,
    ensures
        sorts_of(types, at, e, cache, fuel).0->Ok_0.len() == types.len() - at,
    decreases types.len() - at,
{
    if at < types.len() {
        let e1 = sort_of(types[at as int], e, cache, fuel).1;
        lemma_sorts_len(types, at + 1, e1, cache, fuel);
    }
}

/// The models of the sorts, in order.
pub open spec fn sort_models(sorts: Seq<Sort>) -> Seq<SortModel> {
    Seq::new(sorts.len(), |i: int| sorts[i]@)
}

} // verus!
