//! The lowering of types: every type of the source becomes a type made of primitives,
//! functions and tuples.
//!
//! A closure is the pair of a function, which takes the environment as its last parameter,
//! and the environment. A struct is the tuple of its fields. A sum type is the tuple of a
//! one-byte tag and the fields of its largest variant. References and pointers are
//! pointers. A type variable that nothing binds is the unit type.
use vstd::prelude::*;
use crate::cache::{Field, Shape, TypeInfoBody};
use crate::context::{chase, chase_shallow, chaser, Context};
use crate::error::Fault;
use crate::hir_types::{lemma_layouts_of_push, layouts_of, Layout};
use crate::layout::{
    fields_of, integer_kind, largest_variant, variants_of, World,
};
use crate::sequence::{after, try_map};
use crate::substitute::{bind, bind_typevars, type_application_bindings, zip_bindings};
use crate::types::{terms_of, PrimitiveType, Term, Type, TypeInfoId, TypeVariableId};
use crate::unify::{bindings_model, TypeBindings, RECURSION_LIMIT};

verus! {

/// One entry of the table of lowered types: the user-defined type, its arguments, and what
/// it was lowered to.
pub type Memo = (TypeInfoId, Seq<Term>, Layout);

/// The models of the entries of the table of lowered types, in order.
pub open spec fn memo_of(entries: Seq<(TypeInfoId, Vec<Type>, crate::hir_types::Type)>) -> Seq<Memo> {
    Seq::new(entries.len(), |i: int| (entries[i].0, terms_of(entries[i].1@), entries[i].2@))
}

/// What the type and its arguments were lowered to last, among the first `n` entries.
pub open spec fn remembered(memo: Seq<Memo>, n: nat, id: TypeInfoId, args: Seq<Term>) -> Option<Layout>
    decreases n,
{
    if n == 0 || n > memo.len() {
        None
    } else if memo[n - 1].0 == id && memo[n - 1].1 == args {
        Some(memo[n - 1].2)
    } else {
        remembered(memo, (n - 1) as nat, id, args)
    }
}

/// The type of the tag of a sum type.
pub open spec fn tag_layout() -> Layout {
    Layout::Primitive(crate::hir_types::PrimitiveType::Integer(crate::hir_types::IntegerKind::U8))
}

/// What a primitive type is lowered to.
pub open spec fn lower_primitive(p: PrimitiveType, w: World) -> Result<Layout, Fault> {
    match p {
        PrimitiveType::IntegerType(kind) => match integer_kind(kind, w, RECURSION_LIMIT as nat) {
            Err(fault) => Err(fault),
            Ok(found) => Ok(Layout::Primitive(crate::hir_types::PrimitiveType::Integer(found))),
        },
        PrimitiveType::FloatType => Ok(Layout::Primitive(crate::hir_types::PrimitiveType::Float)),
        PrimitiveType::CharType => Ok(Layout::Primitive(crate::hir_types::PrimitiveType::Char)),
        PrimitiveType::BooleanType => Ok(Layout::Primitive(crate::hir_types::PrimitiveType::Boolean)),
        PrimitiveType::UnitType => Ok(Layout::Primitive(crate::hir_types::PrimitiveType::Unit)),
        PrimitiveType::Ptr => Ok(Layout::Primitive(crate::hir_types::PrimitiveType::Pointer)),
    }
}

/// Totality of lowering: whatever type is lowered, with type variables bound or not, naming
/// user-defined types or not, what it is lowered to is concrete.
pub proof fn lemma_lowered_is_concrete(t: Term, memo: Seq<Memo>, w: World, fuel: nat)
    ensures
        lower(t, memo, w, fuel).0 matches Ok(layout) ==> crate::hir_types::is_concrete(layout),
{
    if let Ok(layout) = lower(t, memo, w, fuel).0 {
        crate::hir_types::lemma_layout_is_concrete(layout);
    }
}

/// The types of what the environment of a closure holds: the parts of the tuple that the
/// type of the environment is, up to the unit that ends it. A type that is no such tuple
/// is the one part.
pub open spec fn environment_parts(environment: Term, w: World, fuel: nat) -> Result<Seq<Term>, Fault>
    decreases fuel,
{
    if fuel == 0 {
        Err(Fault::RecursionLimit)
    } else {
        match chase_shallow(environment, w.stack, w.store) {
            Err(fault) => Err(fault),
            Ok(Ok(Term::Primitive(PrimitiveType::UnitType))) => Ok(Seq::empty()),
            Ok(Ok(Term::TypeApplication(constructor, args))) => if *constructor == Term::UserDefined(
                TypeInfoId(crate::types::PAIR_TYPE),
            ) && args.len() == 2 {
                match environment_parts(args[1], w, (fuel - 1) as nat) {
                    Err(fault) => Err(fault),
                    Ok(rest) => Ok(seq![args[0]] + rest),
                }
            } else {
                Ok(seq![environment])
            },
            Ok(_) => Ok(seq![environment]),
        }
    }
}

/// What the type is lowered to, and the table of lowered types after it.
pub open spec fn lower(t: Term, memo: Seq<Memo>, w: World, fuel: nat) -> (Result<Layout, Fault>, Seq<Memo>)
    decreases fuel, 0nat, 0nat,
{
    if fuel == 0 {
        (Err(Fault::RecursionLimit), memo)
    } else {
        let less = (fuel - 1) as nat;
        match t {
            Term::Primitive(p) => (lower_primitive(p, w), memo),
            Term::Function(parameters, return_type, environment, is_varargs) => {
                let (lowered_parameters, m1) = lower_each(parameters, memo, w, less);
                match lowered_parameters {
                    Err(fault) => (Err(fault), m1),
                    Ok(ps) => {
                        let (lowered_return, m2) = lower(*return_type, m1, w, less);
                        match lowered_return {
                            Err(fault) => (Err(fault), m2),
                            Ok(r) => match chase_shallow(*environment, w.stack, w.store) {
                                Err(fault) => (Err(fault), m2),
                                Ok(Ok(Term::Primitive(PrimitiveType::UnitType))) => (
                                    Ok(Layout::Function(ps, Box::new(r), is_varargs)),
                                    m2,
                                ),
                                Ok(_) => match environment_parts(*environment, w, RECURSION_LIMIT as nat) {
                                    Err(fault) => (Err(fault), m2),
                                    Ok(parts) => {
                                        let (lowered_parts, m3) = lower_each(parts, m2, w, less);
                                        match lowered_parts {
                                            Err(fault) => (Err(fault), m3),
                                            Ok(es) => {
                                                let e = Layout::Tuple(es);
                                                (
                                                    Ok(
                                                        Layout::Tuple(
                                                            seq![
                                                                Layout::Function(ps.push(e), Box::new(r), is_varargs),
                                                                e,
                                                            ],
                                                        ),
                                                    ),
                                                    m3,
                                                )
                                            },
                                        }
                                    },
                                },
                            },
                        }
                    },
                }
            },
            Term::TypeVariable(id) => match chase(id, w.stack, w.store, less) {
                Err(fault) => (Err(fault), memo),
                Ok(Ok(binding)) => lower(binding, memo, w, less),
                Ok(Err(_)) => lower(Term::Primitive(PrimitiveType::UnitType), memo, w, less),
            },
            Term::UserDefined(id) => lower_user_defined(id, Seq::empty(), memo, w, less),
            Term::TypeApplication(constructor, args) => match try_map(
                args,
                chaser(w.stack, w.store, RECURSION_LIMIT as nat),
            ) {
                Err(fault) => (Err(fault), memo),
                Ok(followed) => match chase_shallow(*constructor, w.stack, w.store) {
                    Err(fault) => (Err(fault), memo),
                    Ok(Ok(Term::Primitive(PrimitiveType::Ptr))) => (
                        Ok(Layout::Primitive(crate::hir_types::PrimitiveType::Pointer)),
                        memo,
                    ),
                    Ok(Ok(Term::Ref(_))) => (
                        Ok(Layout::Primitive(crate::hir_types::PrimitiveType::Pointer)),
                        memo,
                    ),
                    Ok(Ok(Term::UserDefined(id))) => lower_user_defined(id, followed, memo, w, less),
                    Ok(_) => (Err(Fault::KindError), memo),
                },
            },
            Term::Ref(_) => (Err(Fault::KindError), memo),
        }
    }
}

/// What each type of a list is lowered to in turn, and the table after it.
pub open spec fn lower_each(types: Seq<Term>, memo: Seq<Memo>, w: World, fuel: nat) -> (
    Result<Seq<Layout>, Fault>,
    Seq<Memo>,
)
    decreases fuel, 1nat, types.len(),
{
    if types.len() == 0 {
        (Ok(Seq::empty()), memo)
    } else {
        let (first, m1) = lower(types[0], memo, w, fuel);
        match first {
            Err(fault) => (Err(fault), m1),
            Ok(lowered) => {
                let (rest, m2) = lower_each(types.drop_first(), m1, w, fuel);
                (after(seq![lowered], rest), m2)
            },
        }
    }
}

/// What each field of a struct is lowered to in turn, with the bindings made in its type,
/// and the table after it.
pub open spec fn lower_fields(
    fields: Seq<(Seq<char>, Term)>,
    bindings: Map<TypeVariableId, Term>,
    memo: Seq<Memo>,
    w: World,
    fuel: nat,
) -> (Result<Seq<Layout>, Fault>, Seq<Memo>)
    decreases fuel, 1nat, fields.len(),
{
    if fields.len() == 0 {
        (Ok(Seq::empty()), memo)
    } else {
        match bind(fields[0].1, bindings, w.store, RECURSION_LIMIT as nat) {
            Err(fault) => (Err(fault), memo),
            Ok(field) => {
                let (first, m1) = lower(field, memo, w, fuel);
                match first {
                    Err(fault) => (Err(fault), m1),
                    Ok(lowered) => {
                        let (rest, m2) = lower_fields(fields.drop_first(), bindings, m1, w, fuel);
                        (after(seq![lowered], rest), m2)
                    },
                }
            },
        }
    }
}

/// What the user-defined type, applied to the arguments, is lowered to, and the table
/// after it. What the table remembers of it is the answer. Else the type is entered in
/// the table as the empty tuple while what it is made of is lowered, so that a type that
/// holds itself comes to an end, and then as what it was lowered to.
pub open spec fn lower_user_defined(id: TypeInfoId, args: Seq<Term>, memo: Seq<Memo>, w: World, fuel: nat) -> (
    Result<Layout, Fault>,
    Seq<Memo>,
)
    decreases fuel, 6nat, 0nat,
{
    if id.0 >= w.shapes.len() {
        (Err(Fault::UnknownType(id.0)), memo)
    } else {
        let info = w.shapes[id.0 as int];
        if info.args.len() != args.len() {
            (Err(Fault::KindError), memo)
        } else {
            match remembered(memo, memo.len(), id, args) {
                Some(known) => (Ok(known), memo),
                None => {
                    let bindings = zip_bindings(info.args, args, args.len());
                    let placeholder = (id, args, Layout::Tuple(Seq::empty()));
                    match info.body {
                        Shape::Union(variants) => match largest_variant(
                            variants,
                            variants.len(),
                            bindings,
                            w,
                            fuel,
                        ) {
                            Err(fault) => (Err(fault), memo),
                            Ok(None) => (Ok(Layout::Tuple(Seq::empty())), memo.push(placeholder)),
                            Ok(Some((fields, _))) => {
                                let (lowered, m1) = lower_each(fields, memo.push(placeholder), w, fuel);
                                match lowered {
                                    Err(fault) => (Err(fault), m1),
                                    Ok(ls) => {
                                        let t = Layout::Tuple(seq![tag_layout()] + ls);
                                        (Ok(t), m1.push((id, args, t)))
                                    },
                                }
                            },
                        },
                        Shape::Struct(fields) => {
                            let (lowered, m1) = lower_fields(fields, bindings, memo.push(placeholder), w, fuel);
                            match lowered {
                                Err(fault) => (Err(fault), m1),
                                Ok(ls) => {
                                    let t = Layout::Tuple(ls);
                                    (Ok(t), m1.push((id, args, t)))
                                },
                            }
                        },
                        _ => (Err(Fault::UnknownTypeBody(id.0)), memo),
                    }
                },
            }
        }
    }
}

/// Does `result` hold the layout `expected`, or the same fault?
pub open spec fn lowers_to(result: Result<crate::hir_types::Type, Fault>, expected: Result<Layout, Fault>) -> bool {
    match result {
        Ok(t) => expected == Ok::<Layout, Fault>(t@),
        Err(fault) => expected == Err::<Layout, Fault>(fault),
    }
}

/// Does `result` hold the layouts `expected`, or the same fault?
pub open spec fn lower_all_to(result: Result<Vec<crate::hir_types::Type>, Fault>, expected: Result<Seq<Layout>, Fault>) -> bool {
    match result {
        Ok(types) => expected == Ok::<Seq<Layout>, Fault>(layouts_of(types@)),
        Err(fault) => expected == Err::<Seq<Layout>, Fault>(fault),
    }
}

/// Are the two lists of types the same?
pub fn types_equal(a: &Vec<Type>, b: &Vec<Type>) -> (same: bool)
    ensures
        same == (terms_of(a@) == terms_of(b@)),
{
    proof {
        crate::types::lemma_terms_of_equal(a@, b@);
    }
    if a.len() != b.len() {
        return false;
    }
    let mut i: usize = 0;
    while i < a.len()
        invariant
            i <= a.len(),
            a.len() == b.len(),
            forall|j: int| 0 <= j < i ==> a@[j]@ == b@[j]@,
        decreases a.len() - i,
    {
        if !a[i].eq(&b[i]) {
            proof {
                crate::types::lemma_terms_of_equal(a@, b@);
            }
            return false;
        }
        i += 1;
    }
    proof {
        crate::types::lemma_terms_of_equal(a@, b@);
    }
    true
}

impl Context {
    /// The table of lowered types, as models.
    pub open spec fn memo(&self) -> Seq<Memo> {
        memo_of(self.types@)
    }

    /// Do the two contexts differ at most in the table of lowered types?
    pub open spec fn same_but_types(&self, other: &Context) -> bool {
        &&& self.monomorphisation_bindings == other.monomorphisation_bindings
        &&& self.cache == other.cache
        &&& self.definitions == other.definitions
        &&& self.direct_impl_mappings == other.direct_impl_mappings
        &&& self.indirect_impl_mappings == other.indirect_impl_mappings
        &&& self.direct_given_impl_mappings == other.direct_given_impl_mappings
        &&& self.indirect_given_impl_mappings == other.indirect_given_impl_mappings
        &&& self.next_id == other.next_id
    }

    /// Returns the type of a tag in a tagged union.
    pub fn tag_type() -> (tag: crate::hir_types::Type)
        ensures
            tag@ == tag_layout(),
    {
        crate::hir_types::Type::Primitive(
            crate::hir_types::PrimitiveType::Integer(crate::hir_types::IntegerKind::U8),
        )
    }

    /// What a primitive type is lowered to.
    pub fn convert_primitive_type(&self, typ: &PrimitiveType) -> (result: Result<crate::hir_types::Type, Fault>)
        ensures
            lowers_to(result, lower_primitive(*typ, self.world())),
    {
        match typ {
            PrimitiveType::IntegerType(kind) => match self.convert_integer_kind(*kind) {
                Err(fault) => Err(fault),
                Ok(kind) => Ok(
                    crate::hir_types::Type::Primitive(crate::hir_types::PrimitiveType::Integer(kind)),
                ),
            },
            PrimitiveType::FloatType => Ok(
                crate::hir_types::Type::Primitive(crate::hir_types::PrimitiveType::Float),
            ),
            PrimitiveType::CharType => Ok(crate::hir_types::Type::Primitive(crate::hir_types::PrimitiveType::Char)),
            PrimitiveType::BooleanType => Ok(
                crate::hir_types::Type::Primitive(crate::hir_types::PrimitiveType::Boolean),
            ),
            PrimitiveType::UnitType => Ok(crate::hir_types::Type::Primitive(crate::hir_types::PrimitiveType::Unit)),
            PrimitiveType::Ptr => Ok(crate::hir_types::Type::Primitive(crate::hir_types::PrimitiveType::Pointer)),
        }
    }

    /// Is the environment of a function that of a function that is no closure: the unit
    /// type?
    pub fn empty_closure_environment(&self, environment: &Type) -> (result: Result<bool, Fault>)
        ensures
            match chase_shallow(environment@, self.stack(), self.cache.store()) {
                Err(fault) => result == Err::<bool, Fault>(fault),
                Ok(found) => result == Ok::<bool, Fault>(
                    found == Ok::<Term, TypeVariableId>(Term::Primitive(PrimitiveType::UnitType)),
                ),
            },
    {
        match self.follow_bindings_shallow(environment) {
            Err(fault) => Err(fault),
            Ok(Ok(Type::Primitive(PrimitiveType::UnitType))) => Ok(true),
            Ok(_) => Ok(false),
        }
    }

    /// Adds to `parts` the types of what the environment of a closure holds.
    pub fn closure_environment_parts(&self, environment: &Type, parts: &mut Vec<Type>, fuel: u32) -> (result: Result<
        (),
        Fault,
    >)
        ensures
            match environment_parts(environment@, self.world(), fuel as nat) {
                Ok(found) => result is Ok && terms_of(final(parts)@) == terms_of(old(parts)@) + found,
                Err(fault) => result == Err::<(), Fault>(fault),
            },
        decreases fuel,
    {
        let ghost before = terms_of(parts@);
        if fuel == 0 {
            return Err(Fault::RecursionLimit);
        }
        match self.follow_bindings_shallow(environment) {
            Err(fault) => Err(fault),
            Ok(Ok(Type::Primitive(PrimitiveType::UnitType))) => {
                assert(before + Seq::<Term>::empty() =~= before);
                Ok(())
            },
            Ok(Ok(Type::TypeApplication(constructor, args))) => {
                let pair = match &*constructor {
                    Type::UserDefined(id) => id.0 == crate::types::PAIR_TYPE,
                    _ => false,
                };
                assert(pair <==> constructor@ == Term::UserDefined(TypeInfoId(crate::types::PAIR_TYPE)));
                if pair && args.len() == 2 {
                    assert(terms_of(args@)[0] == args@[0]@);
                    assert(terms_of(args@)[1] == args@[1]@);
                    let first = args[0].clone();
                    proof {
                        crate::types::lemma_terms_of_push(parts@, first);
                    }
                    parts.push(first);
                    match self.closure_environment_parts(&args[1], parts, fuel - 1) {
                        Err(fault) => Err(fault),
                        Ok(()) => {
                            proof {
                                let rest = environment_parts(args@[1]@, self.world(), (fuel - 1) as nat)->Ok_0;
                                assert(before.push(args@[0]@) + rest =~= before + (seq![args@[0]@] + rest));
                            }
                            Ok(())
                        },
                    }
                } else {
                    let whole = environment.clone();
                    proof {
                        crate::types::lemma_terms_of_push(parts@, whole);
                        assert(before.push(environment@) =~= before + seq![environment@]);
                    }
                    parts.push(whole);
                    Ok(())
                }
            },
            Ok(_) => {
                let whole = environment.clone();
                proof {
                    crate::types::lemma_terms_of_push(parts@, whole);
                    assert(before.push(environment@) =~= before + seq![environment@]);
                }
                parts.push(whole);
                Ok(())
            },
        }
    }

    /// What the table of lowered types remembers of the type and its arguments.
    pub fn lookup_type(&self, id: TypeInfoId, args: &Vec<Type>) -> (known: Option<crate::hir_types::Type>)
        ensures
            match known {
                Some(t) => remembered(self.memo(), self.memo().len(), id, terms_of(args@)) == Some(t@),
                None => remembered(self.memo(), self.memo().len(), id, terms_of(args@)).is_none(),
            },
    {
        let ghost memo = self.memo();
        let mut i: usize = self.types.len();
        while i > 0
            invariant
                i <= self.types.len(),
                memo == self.memo(),
                remembered(memo, memo.len(), id, terms_of(args@)) == remembered(
                    memo,
                    i as nat,
                    id,
                    terms_of(args@),
                ),
            decreases i,
        {
            i -= 1;
            assert(memo[i as int] == (self.types@[i as int].0, terms_of(self.types@[i as int].1@), self.types@[i as int].2@));
            if self.types[i].0 == id && types_equal(&self.types[i].1, args) {
                return Some(self.types[i].2.clone());
            }
        }
        None
    }

    fn remember_type(&mut self, id: TypeInfoId, args: Vec<Type>, typ: crate::hir_types::Type)
        ensures
            final(self).memo() == old(self).memo().push((id, terms_of(args@), typ@)),
            final(self).same_but_types(old(self)),
    {
        self.types.push((id, args, typ));
        assert(self.memo() =~= old(self).memo().push((id, terms_of(args@), typ@)));
    }

    /// Monomorphise a type of the source into a type of the intermediate representation.
    pub fn convert_type(&mut self, typ: &Type) -> (result: Result<crate::hir_types::Type, Fault>)
        ensures
            ({
                let (expected, memo) = lower(typ@, old(self).memo(), old(self).world(), RECURSION_LIMIT as nat);
                lowers_to(result, expected) && final(self).memo() == memo
            }),
            final(self).same_but_types(old(self)),
    {
        self.convert_type_inner(typ, RECURSION_LIMIT)
    }

    fn convert_each(&mut self, types: &Vec<Type>, fuel: u32) -> (result: Result<Vec<crate::hir_types::Type>, Fault>)
        ensures
            ({
                let (expected, memo) = lower_each(terms_of(types@), old(self).memo(), old(self).world(), fuel as nat);
                lower_all_to(result, expected) && final(self).memo() == memo
            }),
            final(self).same_but_types(old(self)),
        decreases fuel, 1nat,
    {
        let ghost all = terms_of(types@);
        let ghost w = self.world();
        let ghost start = self.memo();
        let mut lowered: Vec<crate::hir_types::Type> = Vec::new();
        let mut i: usize = 0;
        proof {
            assert(all.subrange(0, all.len() as int) =~= all);
            assert(layouts_of(lowered@) =~= Seq::<Layout>::empty());
            let (expected, state) = lower_each(all, start, w, fuel as nat);
            if let Ok(found) = expected {
                assert(Seq::<Layout>::empty() + found =~= found);
            }
        }
        while i < types.len()
            invariant
                i <= types.len(),
                all == terms_of(types@),
                w == self.world(),
                w == old(self).world(),
                start == old(self).memo(),
                self.same_but_types(old(self)),
                ({
                    let (rest, state) = lower_each(
                        all.subrange(i as int, all.len() as int),
                        self.memo(),
                        w,
                        fuel as nat,
                    );
                    lower_each(all, start, w, fuel as nat) == (after(layouts_of(lowered@), rest), state)
                }),
            decreases types.len() - i,
        {
            let ghost rest = all.subrange(i as int, all.len() as int);
            let ghost now = self.memo();
            proof {
                assert(rest[0] == types@[i as int]@);
                assert(rest.drop_first() =~= all.subrange(i + 1, all.len() as int));
            }
            match self.convert_type_inner(&types[i], fuel) {
                Err(fault) => {
                    proof {
                        let (first, m1) = lower(rest[0], now, w, fuel as nat);
                        assert(first == Err::<Layout, Fault>(fault));
                        assert(lower_each(rest, now, w, fuel as nat) == (Err::<Seq<Layout>, Fault>(fault), m1));
                    }
                    return Err(fault);
                },
                Ok(typ) => {
                    proof {
                        lemma_layouts_of_push(lowered@, typ);
                        let (tail, state) = lower_each(rest.drop_first(), self.memo(), w, fuel as nat);
                        if let Ok(found) = tail {
                            assert(layouts_of(lowered@) + (seq![typ@] + found) =~= layouts_of(lowered@).push(
                                typ@,
                            ) + found);
                        }
                    }
                    lowered.push(typ);
                },
            }
            i += 1;
        }
        proof {
            assert(layouts_of(lowered@) + Seq::<Layout>::empty() =~= layouts_of(lowered@));
        }
        Ok(lowered)
    }

    fn convert_fields(&mut self, fields: &Vec<Field>, bindings: &TypeBindings, fuel: u32) -> (result: Result<
        Vec<crate::hir_types::Type>,
        Fault,
    >)
        ensures
            ({
                let (expected, memo) = lower_fields(
                    fields_of(fields@),
                    bindings_model(bindings@),
                    old(self).memo(),
                    old(self).world(),
                    fuel as nat,
                );
                lower_all_to(result, expected) && final(self).memo() == memo
            }),
            final(self).same_but_types(old(self)),
        decreases fuel, 1nat,
    {
        let ghost all = fields_of(fields@);
        let ghost model = bindings_model(bindings@);
        let ghost w = self.world();
        let ghost start = self.memo();
        let mut lowered: Vec<crate::hir_types::Type> = Vec::new();
        let mut i: usize = 0;
        proof {
            assert(all.subrange(0, all.len() as int) =~= all);
            assert(layouts_of(lowered@) =~= Seq::<Layout>::empty());
            let (expected, state) = lower_fields(all, model, start, w, fuel as nat);
            if let Ok(found) = expected {
                assert(Seq::<Layout>::empty() + found =~= found);
            }
        }
        while i < fields.len()
            invariant
                i <= fields.len(),
                all == fields_of(fields@),
                model == bindings_model(bindings@),
                w == self.world(),
                w == old(self).world(),
                start == old(self).memo(),
                self.same_but_types(old(self)),
                ({
                    let (rest, state) = lower_fields(
                        all.subrange(i as int, all.len() as int),
                        model,
                        self.memo(),
                        w,
                        fuel as nat,
                    );
                    lower_fields(all, model, start, w, fuel as nat) == (after(layouts_of(lowered@), rest), state)
                }),
            decreases fields.len() - i,
        {
            let ghost rest = all.subrange(i as int, all.len() as int);
            let ghost now = self.memo();
            proof {
                assert(rest[0].1 == fields@[i as int].field_type@);
                assert(rest.drop_first() =~= all.subrange(i + 1, all.len() as int));
            }
            let field_type = match bind_typevars(&fields[i].field_type, bindings, &self.cache) {
                Err(fault) => {
                    proof {
                        assert(lower_fields(rest, model, now, w, fuel as nat) == (Err::<Seq<Layout>, Fault>(fault), now));
                    }
                    return Err(fault);
                },
                Ok(field_type) => field_type,
            };
            match self.convert_type_inner(&field_type, fuel) {
                Err(fault) => {
                    proof {
                        let (first, m1) = lower(field_type@, now, w, fuel as nat);
                        assert(first == Err::<Layout, Fault>(fault));
                        assert(lower_fields(rest, model, now, w, fuel as nat) == (Err::<Seq<Layout>, Fault>(fault), m1));
                    }
                    return Err(fault);
                },
                Ok(typ) => {
                    proof {
                        lemma_layouts_of_push(lowered@, typ);
                        let (tail, state) = lower_fields(rest.drop_first(), model, self.memo(), w, fuel as nat);
                        if let Ok(found) = tail {
                            assert(layouts_of(lowered@) + (seq![typ@] + found) =~= layouts_of(lowered@).push(
                                typ@,
                            ) + found);
                        }
                    }
                    lowered.push(typ);
                },
            }
            i += 1;
        }
        proof {
            assert(layouts_of(lowered@) + Seq::<Layout>::empty() =~= layouts_of(lowered@));
        }
        Ok(lowered)
    }

    /// Monomorphise a type, going at most `fuel` deep.
    pub fn convert_type_inner(&mut self, typ: &Type, fuel: u32) -> (result: Result<crate::hir_types::Type, Fault>)
        ensures
            ({
                let (expected, memo) = lower(typ@, old(self).memo(), old(self).world(), fuel as nat);
                lowers_to(result, expected) && final(self).memo() == memo
            }),
            final(self).same_but_types(old(self)),
        decreases fuel, 0nat,
    {
        if fuel == 0 {
            return Err(Fault::RecursionLimit);
        }
        let fuel = fuel - 1;
        match typ {
            Type::Primitive(primitive) => self.convert_primitive_type(primitive),
            Type::Function(function) => {
                let mut parameters = match self.convert_each(&function.parameters, fuel) {
                    Err(fault) => {
                        return Err(fault);
                    },
                    Ok(parameters) => parameters,
                };
                let return_type = match self.convert_type_inner(&function.return_type, fuel) {
                    Err(fault) => {
                        return Err(fault);
                    },
                    Ok(return_type) => return_type,
                };
                let empty = match self.empty_closure_environment(&function.environment) {
                    Err(fault) => {
                        return Err(fault);
                    },
                    Ok(empty) => empty,
                };
                if empty {
                    Ok(
                        crate::hir_types::Type::Function(
                            crate::hir_types::FunctionType {
                                parameters,
                                return_type: Box::new(return_type),
                                is_varargs: function.is_varargs,
                            },
                        ),
                    )
                } else {
                    let mut parts: Vec<Type> = Vec::new();
                    assert(terms_of(parts@) =~= Seq::<Term>::empty());
                    match self.closure_environment_parts(&function.environment, &mut parts, RECURSION_LIMIT) {
                        Err(fault) => {
                            return Err(fault);
                        },
                        Ok(()) => {},
                    }
                    proof {
                        let found = environment_parts(
                            function.environment@,
                            self.world(),
                            RECURSION_LIMIT as nat,
                        )->Ok_0;
                        assert(Seq::<Term>::empty() + found =~= found);
                    }
                    let environment = match self.convert_each(&parts, fuel) {
                        Err(fault) => {
                            return Err(fault);
                        },
                        Ok(lowered) => crate::hir_types::Type::Tuple(lowered),
                    };
                    let last = environment.clone();
                    proof {
                        lemma_layouts_of_push(parameters@, last);
                    }
                    parameters.push(last);
                    let function = crate::hir_types::Type::Function(
                        crate::hir_types::FunctionType {
                            parameters,
                            return_type: Box::new(return_type),
                            is_varargs: function.is_varargs,
                        },
                    );
                    let mut both: Vec<crate::hir_types::Type> = Vec::new();
                    both.push(function);
                    both.push(environment);
                    proof {
                        assert(layouts_of(both@) =~= seq![both@[0]@, both@[1]@]);
                    }
                    Ok(crate::hir_types::Type::Tuple(both))
                }
            },
            Type::TypeVariable(id) => match self.find_binding_within(*id, fuel) {
                Err(fault) => Err(fault),
                Ok(Ok(binding)) => self.convert_type_inner(&binding, fuel),
                Ok(Err(_)) => {
                    let unbound = Type::Primitive(PrimitiveType::UnitType);
                    self.convert_type_inner(&unbound, fuel)
                },
            },
            Type::UserDefined(id) => {
                let none: Vec<Type> = Vec::new();
                assert(terms_of(none@) =~= Seq::<Term>::empty());
                self.convert_user_defined_type(*id, none, fuel)
            },
            Type::TypeApplication(constructor, args) => {
                let args = match self.follow_each_fully(args) {
                    Err(fault) => {
                        return Err(fault);
                    },
                    Ok(args) => args,
                };
                match self.follow_bindings_shallow(constructor) {
                    Err(fault) => Err(fault),
                    Ok(Ok(Type::Primitive(PrimitiveType::Ptr))) => Ok(
                        crate::hir_types::Type::Primitive(crate::hir_types::PrimitiveType::Pointer),
                    ),
                    Ok(Ok(Type::Ref(_))) => Ok(
                        crate::hir_types::Type::Primitive(crate::hir_types::PrimitiveType::Pointer),
                    ),
                    Ok(Ok(Type::UserDefined(id))) => self.convert_user_defined_type(id, args, fuel),
                    Ok(_) => Err(Fault::KindError),
                }
            },
            Type::Ref(_) => Err(Fault::KindError),
        }
    }

    /// Each of the types with all its bindings followed.
    pub fn follow_each_fully(&self, types: &Vec<Type>) -> (result: Result<Vec<Type>, Fault>)
        ensures
            crate::substitute::yield_all(
                result,
                try_map(terms_of(types@), chaser(self.stack(), self.cache.store(), RECURSION_LIMIT as nat)),
            ),
    {
        let ghost all = terms_of(types@);
        let ghost f = chaser(self.stack(), self.cache.store(), RECURSION_LIMIT as nat);
        let mut followed: Vec<Type> = Vec::new();
        let mut i: usize = 0;
        proof {
            crate::sequence::lemma_try_map_start(all, f);
            assert(terms_of(followed@) =~= Seq::<Term>::empty());
        }
        while i < types.len()
            invariant
                i <= types.len(),
                all == terms_of(types@),
                f == chaser(self.stack(), self.cache.store(), RECURSION_LIMIT as nat),
                try_map(all, f) == after(
                    terms_of(followed@),
                    try_map(all.subrange(i as int, all.len() as int), f),
                ),
            decreases types.len() - i,
        {
            proof {
                crate::sequence::lemma_try_map_step(all, f, terms_of(followed@), i as int);
                assert(all[i as int] == types@[i as int]@);
            }
            match self.follow_all_bindings(&types[i]) {
                Err(fault) => {
                    return Err(fault);
                },
                Ok(typ) => {
                    proof {
                        crate::types::lemma_terms_of_push(followed@, typ);
                    }
                    followed.push(typ);
                },
            }
            i += 1;
        }
        proof {
            crate::sequence::lemma_try_map_end(all, f, terms_of(followed@));
        }
        Ok(followed)
    }

    /// What a user-defined type, applied to the arguments, is lowered to.
    pub fn convert_user_defined_type(&mut self, id: TypeInfoId, args: Vec<Type>, fuel: u32) -> (result: Result<
        crate::hir_types::Type,
        Fault,
    >)
        ensures
            ({
                let (expected, memo) = lower_user_defined(
                    id,
                    terms_of(args@),
                    old(self).memo(),
                    old(self).world(),
                    fuel as nat,
                );
                lowers_to(result, expected) && final(self).memo() == memo
            }),
            final(self).same_but_types(old(self)),
        decreases fuel, 6nat,
    {
        if id.0 >= self.cache.type_infos.len() {
            return Err(Fault::UnknownType(id.0));
        }
        assert(self.world().shapes[id.0 as int] == self.cache.type_infos@[id.0 as int]@);
        if self.cache.type_infos[id.0].args.len() != args.len() {
            return Err(Fault::KindError);
        }
        match self.lookup_type(id, &args) {
            Some(typ) => {
                return Ok(typ);
            },
            None => {},
        }
        let bindings = type_application_bindings(&self.cache.type_infos[id.0], &args);
        let ghost w = self.world();
        let ghost model = zip_bindings(w.shapes[id.0 as int].args, terms_of(args@), args@.len());
        let ghost placeholder = (id, terms_of(args@), Layout::Tuple(Seq::empty()));
        let is_union = match &self.cache.type_infos[id.0].body {
            TypeInfoBody::Union(_) => true,
            TypeInfoBody::Struct(_) => false,
            _ => {
                return Err(Fault::UnknownTypeBody(id.0));
            },
        };
        if is_union {
            let largest = match &self.cache.type_infos[id.0].body {
                TypeInfoBody::Union(variants) => {
                    assert(w.shapes[id.0 as int].body == Shape::Union(variants_of(variants@)));
                    self.find_largest_union_variant(variants, &bindings, fuel)
                },
                _ => Err(Fault::UnknownTypeBody(id.0)),
            };
            match largest {
                Err(fault) => Err(fault),
                Ok(None) => {
                    let empty: Vec<crate::hir_types::Type> = Vec::new();
                    assert(layouts_of(empty@) =~= Seq::<Layout>::empty());
                    let t = crate::hir_types::Type::Tuple(empty);
                    self.remember_type(id, args, t.clone());
                    Ok(t)
                },
                Ok(Some(variant)) => {
                    let empty: Vec<crate::hir_types::Type> = Vec::new();
                    assert(layouts_of(empty@) =~= Seq::<Layout>::empty());
                    self.remember_type(id, crate::types::clone_types(&args), crate::hir_types::Type::Tuple(empty));
                    let lowered = match self.convert_each(&variant, fuel) {
                        Err(fault) => {
                            return Err(fault);
                        },
                        Ok(lowered) => lowered,
                    };
                    let mut fields: Vec<crate::hir_types::Type> = Vec::new();
                    fields.push(Context::tag_type());
                    let mut lowered = lowered;
                    let ghost rest = layouts_of(lowered@);
                    proof {
                        assert(layouts_of(fields@) =~= seq![tag_layout()]);
                    }
                    let ghost front = fields@;
                    let ghost back = lowered@;
                    fields.append(&mut lowered);
                    proof {
                        assert(layouts_of(front + back) =~= layouts_of(front) + layouts_of(back));
                    }
                    let t = crate::hir_types::Type::Tuple(fields);
                    self.remember_type(id, args, t.clone());
                    Ok(t)
                },
            }
        } else {
            let empty: Vec<crate::hir_types::Type> = Vec::new();
            assert(layouts_of(empty@) =~= Seq::<Layout>::empty());
            self.remember_type(id, crate::types::clone_types(&args), crate::hir_types::Type::Tuple(empty));
            let copied = self.copy_fields(id);
            let lowered = match self.convert_fields(&copied, &bindings, fuel) {
                Err(fault) => {
                    return Err(fault);
                },
                Ok(lowered) => lowered,
            };
            let t = crate::hir_types::Type::Tuple(lowered);
            self.remember_type(id, args, t.clone());
            Ok(t)
        }
    }

    /// A copy of the fields of the struct type `id`.
    fn copy_fields(&self, id: TypeInfoId) -> (fields: Vec<Field>)
        requires
            id.0 < self.cache.type_infos@.len(),
            self.cache.type_infos@[id.0 as int].body is Struct,
        ensures
            Shape::Struct(fields_of(fields@)) == self.cache.type_infos@[id.0 as int].body@,
    {
        let mut copies: Vec<Field> = Vec::new();
        match &self.cache.type_infos[id.0].body {
            TypeInfoBody::Struct(fields) => {
                let mut i: usize = 0;
                while i < fields.len()
                    invariant
                        i <= fields.len(),
                        copies.len() == i,
                        forall|j: int|
                            0 <= j < i ==> copies@[j].name@ == fields@[j].name@ && copies@[j].field_type@
                                == fields@[j].field_type@,
                    decreases fields.len() - i,
                {
                    copies.push(
                        Field {
                            name: fields[i].name.clone(),
                            field_type: fields[i].field_type.clone(),
                            location: fields[i].location,
                        },
                    );
                    i += 1;
                }
                assert(fields_of(copies@) =~= fields_of(fields@));
            },
            _ => {},
        }
        copies
    }
}

} // verus!
