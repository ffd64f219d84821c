//! The layout of types in memory: what an integer kind stands for, and how many bytes a
//! value of a type takes.
use vstd::prelude::*;
use crate::cache::{shapes_of, Binding, Field, Shape, TypeConstructor, TypeInfo, TypeInfoBody, TypeShape, Variant};
use crate::instantiate::bind_arguments;
use crate::unify::{bindings_model, TypeBindings};
use crate::context::{chase, Context};
use crate::error::Fault;
use crate::hir_types::{pointer_size, ptr_size};
use crate::substitute::{bind, bind_typevars, type_application_bindings, zip_bindings};
use crate::types::{terms_of, IntegerKind, PrimitiveType, Term, Type, TypeInfoId, TypeVariableId};
use crate::unify::RECURSION_LIMIT;

verus! {

/// What the lowering of types reads: the bindings of the instantiations in force, the
/// table of bindings, and the user-defined types.
pub struct World {
    pub stack: Seq<Map<TypeVariableId, Term>>,
    pub store: Seq<Binding>,
    pub shapes: Seq<TypeShape>,
}

/// The integer kind that an integer literal without a suffix gets where nothing says more.
pub open spec fn default_integer_kind() -> crate::hir_types::IntegerKind {
    crate::hir_types::IntegerKind::I32
}

/// The integer kind of the intermediate representation that a kind of the source stands
/// for. A kind that was left to inference is what its variable was bound to, or else the
/// default.
pub open spec fn integer_kind(kind: IntegerKind, w: World, fuel: nat) -> Result<
    crate::hir_types::IntegerKind,
    Fault,
>
    decreases fuel,
{
    match kind {
        IntegerKind::Unknown => Ok(default_integer_kind()),
        IntegerKind::Inferred(id) => match chase(id, w.stack, w.store, RECURSION_LIMIT as nat) {
            Err(fault) => Err(fault),
            Ok(Ok(Term::Primitive(PrimitiveType::IntegerType(bound)))) => if fuel == 0 {
                Err(Fault::RecursionLimit)
            } else {
                integer_kind(bound, w, (fuel - 1) as nat)
            },
            Ok(Err(_)) => Ok(default_integer_kind()),
            Ok(Ok(_)) => Err(Fault::NotAnInteger),
        },
        IntegerKind::I8 => Ok(crate::hir_types::IntegerKind::I8),
        IntegerKind::I16 => Ok(crate::hir_types::IntegerKind::I16),
        IntegerKind::I32 => Ok(crate::hir_types::IntegerKind::I32),
        IntegerKind::I64 => Ok(crate::hir_types::IntegerKind::I64),
        IntegerKind::Isz => Ok(crate::hir_types::IntegerKind::Isz),
        IntegerKind::U8 => Ok(crate::hir_types::IntegerKind::U8),
        IntegerKind::U16 => Ok(crate::hir_types::IntegerKind::U16),
        IntegerKind::U32 => Ok(crate::hir_types::IntegerKind::U32),
        IntegerKind::U64 => Ok(crate::hir_types::IntegerKind::U64),
        IntegerKind::Usz => Ok(crate::hir_types::IntegerKind::Usz),
    }
}

/// The width in bits of an integer of the given kind.
pub open spec fn bit_count(kind: crate::hir_types::IntegerKind) -> u32 {
    match kind {
        crate::hir_types::IntegerKind::I8 | crate::hir_types::IntegerKind::U8 => 8,
        crate::hir_types::IntegerKind::I16 | crate::hir_types::IntegerKind::U16 => 16,
        crate::hir_types::IntegerKind::I32 | crate::hir_types::IntegerKind::U32 => 32,
        crate::hir_types::IntegerKind::I64 | crate::hir_types::IntegerKind::U64 => 64,
        crate::hir_types::IntegerKind::Isz | crate::hir_types::IntegerKind::Usz => usize::BITS,
    }
}

/// The sum of two sizes, where it fits the machine word.
pub open spec fn add_sizes(a: usize, b: usize) -> Result<usize, Fault> {
    if a + b <= usize::MAX {
        Ok((a + b) as usize)
    } else {
        Err(Fault::SizeOverflow)
    }
}

/// The size in bytes of a value of the type.
pub open spec fn source_size(t: Term, w: World, fuel: nat) -> Result<usize, Fault>
    decreases fuel, 0nat, 0nat,
{
    if fuel == 0 {
        Err(Fault::RecursionLimit)
    } else {
        let less = (fuel - 1) as nat;
        match t {
            Term::Primitive(PrimitiveType::IntegerType(kind)) => match integer_kind(
                kind,
                w,
                RECURSION_LIMIT as nat,
            ) {
                Err(fault) => Err(fault),
                Ok(found) => Ok((bit_count(found) / 8) as usize),
            },
            Term::Primitive(PrimitiveType::FloatType) => Ok(8),
            Term::Primitive(PrimitiveType::CharType) => Ok(1),
            Term::Primitive(PrimitiveType::BooleanType) => Ok(1),
            Term::Primitive(PrimitiveType::UnitType) => Ok(1),
            Term::Primitive(PrimitiveType::Ptr) => Ok(pointer_size()),
            Term::Function(_, _, _, _) => Ok(pointer_size()),
            Term::TypeVariable(id) => match chase(id, w.stack, w.store, RECURSION_LIMIT as nat) {
                Err(fault) => Err(fault),
                Ok(Ok(binding)) => source_size(binding, w, less),
                Ok(Err(_)) => Ok(1),
            },
            Term::UserDefined(id) => user_defined_size(id, Seq::empty(), w, less),
            Term::TypeApplication(constructor, args) => match *constructor {
                Term::UserDefined(id) => user_defined_size(id, args, w, less),
                _ => Err(Fault::KindError),
            },
            Term::Ref(_) => Ok(pointer_size()),
        }
    }
}

/// The size in bytes of a value of the user-defined type, applied to the arguments: for a
/// struct the sum of its fields, for a sum type one byte for the tag and the size of its
/// largest variant, for a sum type without variants nothing.
pub open spec fn user_defined_size(id: TypeInfoId, args: Seq<Term>, w: World, fuel: nat) -> Result<
    usize,
    Fault,
>
    decreases fuel, 5nat, 0nat,
{
    if id.0 >= w.shapes.len() {
        Err(Fault::UnknownType(id.0))
    } else {
        let info = w.shapes[id.0 as int];
        if info.args.len() != args.len() {
            Err(Fault::KindError)
        } else {
            let bindings = zip_bindings(info.args, args, args.len());
            match info.body {
                Shape::Union(variants) => match largest_variant(variants, variants.len(), bindings, w, fuel) {
                    Err(fault) => Err(fault),
                    Ok(None) => Ok(0),
                    Ok(Some((fields, _))) => match sum_of_sizes(fields, fields.len(), w, fuel) {
                        Err(fault) => Err(fault),
                        Ok(size) => add_sizes(size, 1),
                    },
                },
                Shape::Struct(fields) => struct_size(fields, fields.len(), bindings, w, fuel),
                _ => Err(Fault::UnknownTypeBody(id.0)),
            }
        }
    }
}

/// The sum of the sizes of the first `n` fields of a struct, each with the bindings made
/// in its type.
pub open spec fn struct_size(
    fields: Seq<(Seq<char>, Term)>,
    n: nat,
    bindings: Map<TypeVariableId, Term>,
    w: World,
    fuel: nat,
) -> Result<usize, Fault>
    decreases fuel, 2nat, n,
{
    if n == 0 || n > fields.len() {
        Ok(0)
    } else {
        match struct_size(fields, (n - 1) as nat, bindings, w, fuel) {
            Err(fault) => Err(fault),
            Ok(before) => match bind(fields[n - 1].1, bindings, w.store, RECURSION_LIMIT as nat) {
                Err(fault) => Err(fault),
                Ok(field) => match source_size(field, w, fuel) {
                    Err(fault) => Err(fault),
                    Ok(size) => add_sizes(before, size),
                },
            },
        }
    }
}

/// The sum of the sizes of the first `n` of the types.
pub open spec fn sum_of_sizes(types: Seq<Term>, n: nat, w: World, fuel: nat) -> Result<usize, Fault>
    decreases fuel, 1nat, n,
{
    if n == 0 || n > types.len() {
        Ok(0)
    } else {
        match sum_of_sizes(types, (n - 1) as nat, w, fuel) {
            Err(fault) => Err(fault),
            Ok(before) => match source_size(types[n - 1], w, fuel) {
                Err(fault) => Err(fault),
                Ok(size) => add_sizes(before, size),
            },
        }
    }
}

/// The types of the fields of each of the first `n` variants, with the bindings made.
pub open spec fn bound_variants(
    variants: Seq<Variant>,
    n: nat,
    bindings: Map<TypeVariableId, Term>,
    store: Seq<Binding>,
) -> Result<Seq<Seq<Term>>, Fault>
    decreases n,
{
    if n == 0 || n > variants.len() {
        Ok(Seq::empty())
    } else {
        match bound_variants(variants, (n - 1) as nat, bindings, store) {
            Err(fault) => Err(fault),
            Ok(before) => match crate::sequence::try_map(
                variants[n - 1].args,
                crate::substitute::binder(bindings, store, RECURSION_LIMIT as nat),
            ) {
                Err(fault) => Err(fault),
                Ok(fields) => Ok(before.push(fields)),
            },
        }
    }
}

/// The largest among the first `n` of the lists of fields, with its size: the last of
/// those whose fields take the most bytes together.
pub open spec fn largest_of(candidates: Seq<Seq<Term>>, n: nat, w: World, fuel: nat) -> Result<
    Option<(Seq<Term>, usize)>,
    Fault,
>
    decreases fuel, 3nat, n,
{
    if n == 0 || n > candidates.len() {
        Ok(None)
    } else {
        match largest_of(candidates, (n - 1) as nat, w, fuel) {
            Err(fault) => Err(fault),
            Ok(before) => match sum_of_sizes(candidates[n - 1], candidates[n - 1].len(), w, fuel) {
                Err(fault) => Err(fault),
                Ok(size) => match before {
                    Some((_, most)) if most > size => Ok(before),
                    _ => Ok(Some((candidates[n - 1], size))),
                },
            },
        }
    }
}

/// The fields of the largest of the first `n` variants of a sum type, with the bindings
/// made in their types, and their size together.
pub open spec fn largest_variant(
    variants: Seq<Variant>,
    n: nat,
    bindings: Map<TypeVariableId, Term>,
    w: World,
    fuel: nat,
) -> Result<Option<(Seq<Term>, usize)>, Fault>
    decreases fuel, 4nat, 0nat,
{
    match bound_variants(variants, n, bindings, w.store) {
        Err(fault) => Err(fault),
        Ok(candidates) => largest_of(candidates, candidates.len(), w, fuel),
    }
}

/// The models of lists of types, in order.
pub open spec fn lists_of(lists: Seq<Vec<Type>>) -> Seq<Seq<Term>> {
    Seq::new(lists.len(), |i: int| terms_of(lists[i]@))
}

/// The models of the variants, in order.
pub open spec fn variants_of(variants: Seq<TypeConstructor>) -> Seq<Variant> {
    Seq::new(variants.len(), |i: int| variants[i]@)
}

/// The models of the fields, in order.
pub open spec fn fields_of(fields: Seq<Field>) -> Seq<(Seq<char>, Term)> {
    Seq::new(fields.len(), |i: int| (fields[i].name@, fields[i].field_type@))
}

impl Context {
    /// What the lowering of types reads of this context.
    pub open spec fn world(&self) -> World {
        World { stack: self.stack(), store: self.cache.store(), shapes: shapes_of(self.cache.type_infos@) }
    }

    fn convert_integer_kind_within(&self, kind: IntegerKind, fuel: u32) -> (result: Result<
        crate::hir_types::IntegerKind,
        Fault,
    >)
        ensures
            result == integer_kind(kind, self.world(), fuel as nat),
        decreases fuel,
    {
        match kind {
            IntegerKind::Unknown => Ok(crate::hir_types::IntegerKind::I32),
            IntegerKind::Inferred(id) => {
                match self.find_binding_within(id, RECURSION_LIMIT) {
                    Err(fault) => Err(fault),
                    Ok(Ok(Type::Primitive(PrimitiveType::IntegerType(kind)))) => {
                        if fuel == 0 {
                            Err(Fault::RecursionLimit)
                        } else {
                            self.convert_integer_kind_within(kind, fuel - 1)
                        }
                    },
                    Ok(Err(_)) => Ok(crate::hir_types::IntegerKind::I32),
                    Ok(Ok(_)) => Err(Fault::NotAnInteger),
                }
            },
            IntegerKind::I8 => Ok(crate::hir_types::IntegerKind::I8),
            IntegerKind::I16 => Ok(crate::hir_types::IntegerKind::I16),
            IntegerKind::I32 => Ok(crate::hir_types::IntegerKind::I32),
            IntegerKind::I64 => Ok(crate::hir_types::IntegerKind::I64),
            IntegerKind::Isz => Ok(crate::hir_types::IntegerKind::Isz),
            IntegerKind::U8 => Ok(crate::hir_types::IntegerKind::U8),
            IntegerKind::U16 => Ok(crate::hir_types::IntegerKind::U16),
            IntegerKind::U32 => Ok(crate::hir_types::IntegerKind::U32),
            IntegerKind::U64 => Ok(crate::hir_types::IntegerKind::U64),
            IntegerKind::Usz => Ok(crate::hir_types::IntegerKind::Usz),
        }
    }

    /// The integer kind of the intermediate representation for a kind of the source. An
    /// integer literal without a suffix whose type nothing has settled is a signed 32-bit
    /// integer.
    pub fn convert_integer_kind(&self, kind: IntegerKind) -> (result: Result<crate::hir_types::IntegerKind, Fault>)
        ensures
            result == integer_kind(kind, self.world(), RECURSION_LIMIT as nat),
    {
        self.convert_integer_kind_within(kind, RECURSION_LIMIT)
    }

    /// The size in bits of this integer.
    pub fn integer_bit_count(&self, kind: IntegerKind) -> (result: Result<u32, Fault>)
        ensures
            match integer_kind(kind, self.world(), RECURSION_LIMIT as nat) {
                Ok(found) => result == Ok::<u32, Fault>(bit_count(found)),
                Err(fault) => result == Err::<u32, Fault>(fault),
            },
    {
        match self.convert_integer_kind(kind) {
            Err(fault) => Err(fault),
            Ok(crate::hir_types::IntegerKind::I8) | Ok(crate::hir_types::IntegerKind::U8) => Ok(8),
            Ok(crate::hir_types::IntegerKind::I16) | Ok(crate::hir_types::IntegerKind::U16) => Ok(16),
            Ok(crate::hir_types::IntegerKind::I32) | Ok(crate::hir_types::IntegerKind::U32) => Ok(32),
            Ok(crate::hir_types::IntegerKind::I64) | Ok(crate::hir_types::IntegerKind::U64) => Ok(64),
            Ok(crate::hir_types::IntegerKind::Isz) | Ok(crate::hir_types::IntegerKind::Usz) => Ok(usize::BITS),
        }
    }

    fn sum_sizes(&self, types: &Vec<Type>, fuel: u32) -> (result: Result<usize, Fault>)
        ensures
            result == sum_of_sizes(terms_of(types@), types@.len(), self.world(), fuel as nat),
        decreases fuel, 1nat,
    {
        let ghost all = terms_of(types@);
        let mut total: usize = 0;
        let mut i: usize = 0;
        while i < types.len()
            invariant
                i <= types.len(),
                all == terms_of(types@),
                sum_of_sizes(all, i as nat, self.world(), fuel as nat) == Ok::<usize, Fault>(total),
            decreases types.len() - i,
        {
            assert(all[i as int] == types@[i as int]@);
            let size = match self.size_of_type_within(&types[i], fuel) {
                Err(fault) => {
                    proof {
                        lemma_sum_fails(all, (i + 1) as nat, types@.len(), self.world(), fuel as nat);
                    }
                    return Err(fault);
                },
                Ok(size) => size,
            };
            total = match total.checked_add(size) {
                None => {
                    proof {
                        lemma_sum_fails(all, (i + 1) as nat, types@.len(), self.world(), fuel as nat);
                    }
                    return Err(Fault::SizeOverflow);
                },
                Some(sum) => sum,
            };
            i += 1;
        }
        Ok(total)
    }

    /// The size in bytes of a value of the type.
    pub fn size_of_type(&self, typ: &Type) -> (result: Result<usize, Fault>)
        ensures
            result == source_size(typ@, self.world(), RECURSION_LIMIT as nat),
    {
        self.size_of_type_within(typ, RECURSION_LIMIT)
    }

    fn size_of_type_within(&self, typ: &Type, fuel: u32) -> (result: Result<usize, Fault>)
        ensures
            result == source_size(typ@, self.world(), fuel as nat),
        decreases fuel, 0nat,
    {
        if fuel == 0 {
            return Err(Fault::RecursionLimit);
        }
        let fuel = fuel - 1;
        match typ {
            Type::Primitive(PrimitiveType::IntegerType(kind)) => match self.integer_bit_count(*kind) {
                Err(fault) => Err(fault),
                Ok(bits) => Ok((bits / 8) as usize),
            },
            Type::Primitive(PrimitiveType::FloatType) => Ok(8),
            Type::Primitive(PrimitiveType::CharType) => Ok(1),
            Type::Primitive(PrimitiveType::BooleanType) => Ok(1),
            Type::Primitive(PrimitiveType::UnitType) => Ok(1),
            Type::Primitive(PrimitiveType::Ptr) => Ok(ptr_size()),
            Type::Function(_) => Ok(ptr_size()),
            Type::TypeVariable(id) => match self.find_binding_within(*id, RECURSION_LIMIT) {
                Err(fault) => Err(fault),
                Ok(Ok(binding)) => self.size_of_type_within(&binding, fuel),
                Ok(Err(_)) => Ok(1),
            },
            Type::UserDefined(id) => {
                let none: Vec<Type> = Vec::new();
                assert(terms_of(none@) =~= Seq::<Term>::empty());
                self.size_of_user_defined_type(*id, &none, fuel)
            },
            Type::TypeApplication(constructor, args) => {
                proof {
                    assert((**constructor).term() is UserDefined <==> **constructor is UserDefined);
                }
                match &**constructor {
                    Type::UserDefined(id) => self.size_of_user_defined_type(*id, args, fuel),
                    _ => Err(Fault::KindError),
                }
            },
            Type::Ref(_) => Ok(ptr_size()),
        }
    }

    fn size_of_user_defined_type(&self, id: TypeInfoId, args: &Vec<Type>, fuel: u32) -> (result: Result<
        usize,
        Fault,
    >)
        ensures
            result == user_defined_size(id, terms_of(args@), self.world(), fuel as nat),
        decreases fuel, 5nat,
    {
        if id.0 >= self.cache.type_infos.len() {
            return Err(Fault::UnknownType(id.0));
        }
        let info = &self.cache.type_infos[id.0];
        assert(self.world().shapes[id.0 as int] == info@);
        if info.args.len() != args.len() {
            return Err(Fault::KindError);
        }
        match &info.body {
            TypeInfoBody::Union(variants) => self.size_of_union_type(info, variants, args, fuel),
            TypeInfoBody::Struct(fields) => self.size_of_struct_type(info, fields, args, fuel),
            _ => Err(Fault::UnknownTypeBody(id.0)),
        }
    }

    fn size_of_struct_type(&self, info: &TypeInfo, fields: &Vec<Field>, args: &Vec<Type>, fuel: u32) -> (result:
        Result<usize, Fault>)
        requires
            info.args@.len() == args@.len(),
        ensures
            result == struct_size(
                fields_of(fields@),
                fields@.len(),
                zip_bindings(info.args@, terms_of(args@), args@.len()),
                self.world(),
                fuel as nat,
            ),
        decreases fuel, 2nat,
    {
        let bindings = type_application_bindings(info, args);
        let ghost all = fields_of(fields@);
        let ghost model = zip_bindings(info.args@, terms_of(args@), args@.len());
        let mut total: usize = 0;
        let mut i: usize = 0;
        while i < fields.len()
            invariant
                i <= fields.len(),
                all == fields_of(fields@),
                bindings_model(bindings@) == model,
                model == zip_bindings(info.args@, terms_of(args@), args@.len()),
                struct_size(all, i as nat, model, self.world(), fuel as nat) == Ok::<usize, Fault>(total),
            decreases fields.len() - i,
        {
            assert(all[i as int].1 == fields@[i as int].field_type@);
            let field_type = match bind_typevars(&fields[i].field_type, &bindings, &self.cache) {
                Err(fault) => {
                    proof {
                        lemma_struct_fails(all, (i + 1) as nat, fields@.len(), model, self.world(), fuel as nat);
                    }
                    return Err(fault);
                },
                Ok(field_type) => field_type,
            };
            let size = match self.size_of_type_within(&field_type, fuel) {
                Err(fault) => {
                    proof {
                        lemma_struct_fails(all, (i + 1) as nat, fields@.len(), model, self.world(), fuel as nat);
                    }
                    return Err(fault);
                },
                Ok(size) => size,
            };
            total = match total.checked_add(size) {
                None => {
                    proof {
                        lemma_struct_fails(all, (i + 1) as nat, fields@.len(), model, self.world(), fuel as nat);
                    }
                    return Err(Fault::SizeOverflow);
                },
                Some(sum) => sum,
            };
            i += 1;
        }
        Ok(total)
    }

    fn size_of_union_type(&self, info: &TypeInfo, variants: &Vec<TypeConstructor>, args: &Vec<Type>, fuel: u32) -> (result:
        Result<usize, Fault>)
        requires
            info.args@.len() == args@.len(),
        ensures
            ({
                let bindings = zip_bindings(info.args@, terms_of(args@), args@.len());
                result == (match largest_variant(
                    variants_of(variants@),
                    variants@.len(),
                    bindings,
                    self.world(),
                    fuel as nat,
                ) {
                    Err(fault) => Err(fault),
                    Ok(None) => Ok(0usize),
                    Ok(Some((fields, _))) => match sum_of_sizes(fields, fields.len(), self.world(), fuel as nat) {
                        Err(fault) => Err(fault),
                        Ok(size) => add_sizes(size, 1),
                    },
                })
            }),
        decreases fuel, 4nat, 1nat,
    {
        let bindings = type_application_bindings(info, args);
        match self.find_largest_union_variant(variants, &bindings, fuel) {
            Err(fault) => Err(fault),
            Ok(None) => Ok(0),
            Ok(Some(variant)) => {
                // The size of a union is the size of its largest variant, plus 1 byte for the tag
                match self.sum_sizes(&variant, fuel) {
                    Err(fault) => Err(fault),
                    Ok(size) => match size.checked_add(1) {
                        None => Err(Fault::SizeOverflow),
                        Some(sum) => Ok(sum),
                    },
                }
            },
        }
    }

    /// Given the variants of a sum type, find the largest in memory, with the given
    /// bindings made in the types of the fields, and return the types of its fields.
    pub fn find_largest_union_variant(&self, variants: &Vec<TypeConstructor>, bindings: &TypeBindings, fuel: u32) -> (result:
        Result<Option<Vec<Type>>, Fault>)
        ensures
            match largest_variant(
                variants_of(variants@),
                variants@.len(),
                bindings_model(bindings@),
                self.world(),
                fuel as nat,
            ) {
                Err(fault) => result == Err::<Option<Vec<Type>>, Fault>(fault),
                Ok(None) => result matches Ok(None),
                Ok(Some((fields, _))) => result matches Ok(Some(found)) && terms_of(found@) == fields,
            },
        decreases fuel, 4nat, 0nat,
    {
        let ghost all = variants_of(variants@);
        let ghost model = bindings_model(bindings@);
        let mut candidates: Vec<Vec<Type>> = Vec::new();
        let mut i: usize = 0;
        assert(lists_of(candidates@) =~= Seq::<Seq<Term>>::empty());
        while i < variants.len()
            invariant
                i <= variants.len(),
                all == variants_of(variants@),
                model == bindings_model(bindings@),
                bound_variants(all, i as nat, model, self.cache.store()) == Ok::<Seq<Seq<Term>>, Fault>(
                    lists_of(candidates@),
                ),
            decreases variants.len() - i,
        {
            assert(all[i as int].args == terms_of(variants@[i as int].args@));
            match bind_arguments(&variants[i].args, bindings, &self.cache) {
                Err(fault) => {
                    proof {
                        lemma_bound_variants_fail(all, (i + 1) as nat, variants@.len(), model, self.cache.store());
                    }
                    return Err(fault);
                },
                Ok(fields) => {
                    proof {
                        assert(lists_of(candidates@.push(fields)) =~= lists_of(candidates@).push(terms_of(fields@)));
                    }
                    candidates.push(fields);
                },
            }
            i += 1;
        }
        let ghost lists = lists_of(candidates@);
        let mut best: Option<(usize, usize)> = None;
        let mut k: usize = 0;
        while k < candidates.len()
            invariant
                k <= candidates.len(),
                lists == lists_of(candidates@),
                all == variants_of(variants@),
                model == bindings_model(bindings@),
                bound_variants(all, variants@.len(), model, self.cache.store()) == Ok::<Seq<Seq<Term>>, Fault>(
                    lists,
                ),
                match best {
                    None => largest_of(lists, k as nat, self.world(), fuel as nat) == Ok::<
                        Option<(Seq<Term>, usize)>,
                        Fault,
                    >(None),
                    Some((at, most)) => at < k && largest_of(lists, k as nat, self.world(), fuel as nat) == Ok::<
                        Option<(Seq<Term>, usize)>,
                        Fault,
                    >(Some((lists[at as int], most))),
                },
            decreases candidates.len() - k,
        {
            assert(lists[k as int] == terms_of(candidates@[k as int]@));
            let size = match self.sum_sizes(&candidates[k], fuel) {
                Err(fault) => {
                    proof {
                        lemma_largest_fails(lists, (k + 1) as nat, candidates@.len(), self.world(), fuel as nat);
                    }
                    return Err(fault);
                },
                Ok(size) => size,
            };
            best = match best {
                Some((at, most)) => if most > size {
                    Some((at, most))
                } else {
                    Some((k, size))
                },
                None => Some((k, size)),
            };
            k += 1;
        }
        match best {
            None => Ok(None),
            Some((at, _)) => {
                let found = candidates.swap_remove(at);
                Ok(Some(found))
            },
        }
    }
}

/// Once the sum of the first `n` sizes fails, so does the sum of more.
proof fn lemma_sum_fails(types: Seq<Term>, n: nat, m: nat, w: World, fuel: nat)
    requires
        sum_of_sizes(types, n, w, fuel) is Err,
        n <= m <= types.len(),
    ensures
        sum_of_sizes(types, m, w, fuel) == sum_of_sizes(types, n, w, fuel),
    decreases m,
{
    if n < m {
        lemma_sum_fails(types, n, (m - 1) as nat, w, fuel);
    }
}

proof fn lemma_struct_fails(
    fields: Seq<(Seq<char>, Term)>,
    n: nat,
    m: nat,
    bindings: Map<TypeVariableId, Term>,
    w: World,
    fuel: nat,
)
    requires
        struct_size(fields, n, bindings, w, fuel) is Err,
        n <= m <= fields.len(),
    ensures
        struct_size(fields, m, bindings, w, fuel) == struct_size(fields, n, bindings, w, fuel),
    decreases m,
{
    if n < m {
        lemma_struct_fails(fields, n, (m - 1) as nat, bindings, w, fuel);
    }
}

proof fn lemma_bound_variants_fail(
    variants: Seq<Variant>,
    n: nat,
    m: nat,
    bindings: Map<TypeVariableId, Term>,
    store: Seq<Binding>,
)
    requires
        bound_variants(variants, n, bindings, store) is Err,
        n <= m <= variants.len(),
    ensures
        bound_variants(variants, m, bindings, store) == bound_variants(variants, n, bindings, store),
    decreases m,
{
    if n < m {
        lemma_bound_variants_fail(variants, n, (m - 1) as nat, bindings, store);
    }
}

proof fn lemma_largest_fails(candidates: Seq<Seq<Term>>, n: nat, m: nat, w: World, fuel: nat)
    requires
        largest_of(candidates, n, w, fuel) is Err,
        n <= m <= candidates.len(),
    ensures
        largest_of(candidates, m, w, fuel) == largest_of(candidates, n, w, fuel),
    decreases m,
{
    if n < m {
        lemma_largest_fails(candidates, n, (m - 1) as nat, w, fuel);
    }
}

} // verus!
