//! The resolution of obligations: an obligation whose types mention a variable of the
//! signature of the enclosing function is passed on to the users of the function; any
//! other is met now, by the one impl that its types unify with.
use vstd::prelude::*;
use vstd::string::{StrSliceExecFns, StringExecFns};
use crate::cache::{Binding, ModuleCache, Shape, TypeInfoBody};
use crate::error::{Fault, Location, Mismatch, UnificationError};
use crate::infer_model::{Knowledge, VariableModel};
use crate::infer_state::{report, reported, unified, unify_types};
use crate::layout::fields_of;
use crate::monomorphise_spec::field_position;
use crate::substitute::{
    any_mentions, bind, bind_typevars, contains_any_typevars_from_list, rename_each,
    replace_all_typevars, type_application_bindings, zip_bindings, Renaming,
};
use crate::traits::{
    constraints_of, required_of, Callsite, Constraint, RequiredImpl, RequiredTrait, Signature,
    TraitConstraint,
};
use crate::types::{
    clone_types, terms_of, ImplInfoId, LetBindingLevel, PrimitiveType, Term, Type, TypeInfoId,
    TypeVariableId,
};
use crate::unify::{
    commit, follow, follow_bindings_in_cache, try_unify_all_with_bindings, unify_lists, Pending,
    UnificationBindings, RECURSION_LIMIT,
};

verus! {

broadcast use vstd::std_specs::hash::group_hash_axioms;

/// The place of the occurrence at which an obligation arose.
pub open spec fn place_of(k: Knowledge, callsite: Callsite) -> Location {
    if callsite.variable().0 < k.variables.len() {
        k.variables[callsite.variable().0 as int].location
    } else {
        Location { file: 0, line: 0, column: 0 }
    }
}

/// The integer type that the type of a literal is where nothing says more.
pub open spec fn default_integer() -> Term {
    Term::Primitive(PrimitiveType::IntegerType(crate::types::IntegerKind::I32))
}

/// What is known once an obligation of the trait of the integer types was looked at: it
/// is met by an integer type; a type variable that nothing has bound by now is bound to
/// the 32-bit signed integers; any other type is reported.
pub open spec fn resolve_int(k: Knowledge, c: Constraint) -> (Result<(), Fault>, Knowledge) {
    if c.signature.args.len() != 1 {
        (Err(Fault::Malformed), k)
    } else {
        match follow(c.signature.args[0], Map::empty(), k.store, RECURSION_LIMIT as nat) {
            Err(fault) => (Err(fault), k),
            Ok(Term::Primitive(PrimitiveType::IntegerType(_))) => (Ok(()), k),
            Ok(Term::TypeVariable(id)) => (
                Ok(()),
                unified(k, Term::TypeVariable(id), default_integer(), place_of(k, c.callsite)),
            ),
            Ok(_) => (
                Ok(()),
                reported(
                    k,
                    Mismatch::UnresolvedTrait(c.signature.trait_id.0, c.signature.args),
                    place_of(k, c.callsite),
                ),
            ),
        }
    }
}

/// The struct type that the type is, with the arguments it is applied to.
pub open spec fn struct_of(t: Term) -> Option<(TypeInfoId, Seq<Term>)> {
    match t {
        Term::UserDefined(id) => Some((id, Seq::empty())),
        Term::TypeApplication(constructor, args) => match *constructor {
            Term::UserDefined(id) => Some((id, args)),
            _ => None,
        },
        _ => None,
    }
}

/// The type of the field with the name in the struct type applied to the arguments.
pub open spec fn field_type(k: Knowledge, id: TypeInfoId, args: Seq<Term>, field: Seq<char>) -> Result<
    Option<Term>,
    Fault,
> {
    if id.0 >= k.types.len() {
        Ok(None)
    } else {
        let info = k.types[id.0 as int];
        match info.body {
            Shape::Struct(fields) => if info.args.len() != args.len() {
                Ok(None)
            } else {
                match field_position(fields, field, 0) {
                    None => Ok(None),
                    Some(at) => match bind(
                        fields[at as int].1,
                        zip_bindings(info.args, args, args.len()),
                        k.store,
                        RECURSION_LIMIT as nat,
                    ) {
                        Err(fault) => Err(fault),
                        Ok(found) => Ok(Some(found)),
                    },
                }
            },
            _ => Ok(None),
        }
    }
}

/// What is known once an obligation to have a field was looked at: where the first type
/// is a struct with a field of the name, the second type is unified with the type of the
/// field; else the obligation is reported.
pub open spec fn resolve_member(k: Knowledge, c: Constraint) -> (Result<(), Fault>, Knowledge) {
    let trait_id = c.signature.trait_id;
    if c.signature.args.len() != 2 || trait_id.0 >= k.traits.len() || k.traits[trait_id.0 as int].name.len() == 0 {
        (Err(Fault::Malformed), k)
    } else {
        let field = k.traits[trait_id.0 as int].name.drop_first();
        let unresolved = reported(
            k,
            Mismatch::UnresolvedTrait(trait_id.0, c.signature.args),
            place_of(k, c.callsite),
        );
        match follow(c.signature.args[0], Map::empty(), k.store, RECURSION_LIMIT as nat) {
            Err(fault) => (Err(fault), k),
            Ok(collection) => match struct_of(collection) {
                None => (Ok(()), unresolved),
                Some((id, args)) => match field_type(k, id, args, field) {
                    Err(fault) => (Err(fault), k),
                    Ok(None) => (Ok(()), unresolved),
                    Ok(Some(found)) => (Ok(()), unified(k, c.signature.args[1], found, place_of(k, c.callsite))),
                },
            },
        }
    }
}

/// The impls among the first `n` whose types unify with those of the obligation, each with
/// the bindings that unify them, and what is known after. The type variables of each impl
/// of the trait are replaced by new ones before its types are unified.
pub open spec fn matching_impls(k: Knowledge, c: Constraint, n: nat) -> (
    Result<Seq<(nat, Pending)>, Fault>,
    Knowledge,
)
    decreases n,
{
    if n == 0 || n > k.impls.len() {
        (Ok(Seq::empty()), k)
    } else {
        let (before, k1) = matching_impls(k, c, (n - 1) as nat);
        match before {
            Err(fault) => (Err(fault), k),
            Ok(found) => {
                let candidate = k.impls[n - 1];
                if candidate.trait_id != c.signature.trait_id {
                    (Ok(found), k1)
                } else {
                    let (renamed, state) = rename_each(
                        candidate.typeargs,
                        Renaming { fresh: Map::empty(), store: k1.store },
                        LetBindingLevel(k1.level),
                        RECURSION_LIMIT as nat,
                    );
                    match renamed {
                        Err(fault) => (Err(fault), k),
                        Ok(types) => {
                            let k2 = Knowledge { store: state.store, ..k1 };
                            let nothing = Pending { bindings: Map::empty(), level_bindings: Seq::empty() };
                            let (outcome, pending) = unify_lists(
                                c.signature.args,
                                types,
                                nothing,
                                k2.store,
                                RECURSION_LIMIT as nat,
                            );
                            if outcome is Ok {
                                (Ok(found.push(((n - 1) as nat, pending))), k2)
                            } else {
                                (Ok(found), k2)
                            }
                        },
                    }
                }
            },
        }
    }
}

/// What is known once an obligation was looked at that is met by an impl: the one impl
/// whose types unify with its types is chosen for the occurrence at which the obligation
/// arose, and the bindings that unify them are committed. Where no impl or more than one
/// is found, that is reported.
pub open spec fn resolve_impl(k: Knowledge, c: Constraint) -> (Result<(), Fault>, Knowledge) {
    let (matching, k1) = matching_impls(k, c, k.impls.len());
    match matching {
        Err(fault) => (Err(fault), k),
        Ok(found) => if found.len() == 0 {
            (
                Ok(()),
                reported(
                    k1,
                    Mismatch::UnresolvedTrait(c.signature.trait_id.0, c.signature.args),
                    place_of(k1, c.callsite),
                ),
            )
        } else if found.len() > 1 {
            (
                Ok(()),
                reported(
                    k1,
                    Mismatch::AmbiguousImpl(c.signature.trait_id.0, c.signature.args),
                    place_of(k1, c.callsite),
                ),
            )
        } else {
            let at = c.callsite.variable().0;
            if at >= k1.variables.len() {
                (Err(Fault::UnknownDefinition(at)), k)
            } else {
                let variable = k1.variables[at as int];
                (
                    Ok(()),
                    Knowledge {
                        store: commit(k1.store, found[0].1),
                        variables: k1.variables.update(
                            at as int,
                            VariableModel {
                                required_impls: variable.required_impls.push(
                                    (c.signature.args, c.callsite, ImplInfoId(found[0].0 as usize)),
                                ),
                                ..variable
                            },
                        ),
                        ..k1
                    },
                )
            }
        },
    }
}

/// What becomes of one obligation: it is passed on where one of its types mentions one of
/// the variables, and else met or reported.
pub open spec fn resolve_one(k: Knowledge, c: Constraint, typevars: Seq<TypeVariableId>) -> (
    Result<Option<(Signature, Callsite)>, Fault>,
    Knowledge,
) {
    match any_mentions(c.signature.args, typevars, k.store, RECURSION_LIMIT as nat) {
        Err(fault) => (Err(fault), k),
        Ok(true) => (Ok(Some((c.signature, c.callsite))), k),
        Ok(false) => {
            let (outcome, k1) = if k.int_trait == Some(c.signature.trait_id) {
                resolve_int(k, c)
            } else if c.signature.trait_id.0 < k.traits.len() && k.traits[c.signature.trait_id.0 as int].trait_node.is_none() {
                resolve_member(k, c)
            } else {
                resolve_impl(k, c)
            };
            match outcome {
                Err(fault) => (Err(fault), k),
                Ok(()) => (Ok(None), k1),
            }
        },
    }
}

/// The obligations among the first `n` that are passed on to the users of the enclosing
/// function, and what is known once the others are met or reported.
pub open spec fn resolve_all(k: Knowledge, constraints: Seq<Constraint>, n: nat, typevars: Seq<TypeVariableId>) -> (
    Result<Seq<(Signature, Callsite)>, Fault>,
    Knowledge,
)
    decreases n,
{
    if n == 0 || n > constraints.len() {
        (Ok(Seq::empty()), k)
    } else {
        let (before, k1) = resolve_all(k, constraints, (n - 1) as nat, typevars);
        match before {
            Err(fault) => (Err(fault), k),
            Ok(passed) => {
                let (outcome, k2) = resolve_one(k1, constraints[n - 1], typevars);
                match outcome {
                    Err(fault) => (Err(fault), k),
                    Ok(Some(required)) => (Ok(passed.push(required)), k2),
                    Ok(None) => (Ok(passed), k2),
                }
            },
        }
    }
}

/// A cache in which the bindings of type variables were changed knows what it knew, but
/// for the bindings.
pub proof fn lemma_knowledge_but_store(before: &ModuleCache, after: &ModuleCache)
    requires
        after.same_but_bindings(before),
    ensures
        after.knowledge() == (Knowledge { store: after.store(), ..before.knowledge() }),
{
    let k = after.knowledge();
    let expected = Knowledge { store: after.store(), ..before.knowledge() };
    assert(k.diagnostics =~= expected.diagnostics);
    assert(k.definitions =~= expected.definitions);
    assert(k.traits =~= expected.traits);
    assert(k.impls =~= expected.impls);
    assert(k.variables =~= expected.variables);
}

/// The place of the occurrence at which an obligation arose.
pub fn callsite_location(cache: &ModuleCache, callsite: Callsite) -> (location: Location)
    ensures
        location == place_of(cache.knowledge(), callsite),
{
    let at = callsite.id().0;
    if at < cache.variable_infos.len() {
        cache.variable_infos[at].location
    } else {
        Location::builtin()
    }
}

/// Does `result` report the outcome, with `after` what is known by the outcome?
pub open spec fn settles(result: Result<(), Fault>, expected: (Result<(), Fault>, Knowledge), after: Knowledge) -> bool {
    match expected.0 {
        Ok(()) => result is Ok && after == expected.1,
        Err(fault) => result == Err::<(), Fault>(fault),
    }
}

/// Looks at an obligation of the trait of the integer types.
pub fn resolve_int_constraint(constraint: &TraitConstraint, cache: &mut ModuleCache) -> (result: Result<(), Fault>)
    ensures
        settles(result, resolve_int(old(cache).knowledge(), constraint@), final(cache).knowledge()),
{
    let args = &constraint.required.signature.args;
    if args.len() != 1 {
        return Err(Fault::Malformed);
    }
    assert(terms_of(args@)[0] == args@[0]@);
    match follow_bindings_in_cache(&args[0], cache) {
        Err(fault) => Err(fault),
        Ok(Type::Primitive(PrimitiveType::IntegerType(_))) => Ok(()),
        Ok(Type::TypeVariable(id)) => {
            let location = callsite_location(cache, constraint.required.callsite);
            let default = Type::Primitive(PrimitiveType::IntegerType(crate::types::IntegerKind::I32));
            unify_types(&Type::TypeVariable(id), &default, location, cache);
            Ok(())
        },
        Ok(_) => {
            let location = callsite_location(cache, constraint.required.callsite);
            report(
                UnificationError::UnresolvedTrait(constraint.required.signature.trait_id.0, clone_types(args)),
                location,
                cache,
            );
            Ok(())
        },
    }
}

/// The type of the field with the name in the struct type applied to the arguments.
#[verifier::loop_isolation(false)]
pub fn find_field_type(cache: &ModuleCache, id: TypeInfoId, args: &Vec<Type>, field: &String) -> (result: Result<
    Option<Type>,
    Fault,
>)
    ensures
        match field_type(cache.knowledge(), id, terms_of(args@), field@) {
            Err(fault) => result matches Err(f) && f == fault,
            Ok(None) => result matches Ok(None),
            Ok(Some(t)) => result matches Ok(Some(found)) && found@ == t,
        },
{
    if id.0 >= cache.type_infos.len() {
        return Ok(None);
    }
    let info = &cache.type_infos[id.0];
    assert(cache.knowledge().types[id.0 as int] == info@);
    match &info.body {
        TypeInfoBody::Struct(fields) => {
            if info.args.len() != args.len() {
                return Ok(None);
            }
            let ghost all = fields_of(fields@);
            assert(info@.body == Shape::Struct(all));
            let mut i: usize = 0;
            while i < fields.len()
                invariant
                    i <= fields.len(),
                    all == fields_of(fields@),
                    field_position(all, field@, 0) == field_position(all, field@, i as nat),
                decreases fields.len() - i,
            {
                if fields[i].name == *field {
                    assert(all[i as int].1 == fields@[i as int].field_type@);
                    let bindings = type_application_bindings(info, args);
                    return match bind_typevars(&fields[i].field_type, &bindings, cache) {
                        Err(fault) => Err(fault),
                        Ok(found) => Ok(Some(found)),
                    };
                }
                i += 1;
            }
            Ok(None)
        },
        _ => Ok(None),
    }
}

/// Looks at an obligation to have a field.
pub fn resolve_member_constraint(constraint: &TraitConstraint, cache: &mut ModuleCache) -> (result: Result<(), Fault>)
    ensures
        settles(result, resolve_member(old(cache).knowledge(), constraint@), final(cache).knowledge()),
{
    let args = &constraint.required.signature.args;
    let trait_id = constraint.required.signature.trait_id;
    if args.len() != 2 || trait_id.0 >= cache.trait_infos.len() {
        return Err(Fault::Malformed);
    }
    assert(cache.knowledge().traits[trait_id.0 as int].name == cache.trait_infos@[trait_id.0 as int].name@);
    let name = cache.trait_infos[trait_id.0].name.as_str();
    let length = name.unicode_len();
    if length == 0 {
        return Err(Fault::Malformed);
    }
    let field = String::from_str(name.substring_char(1, length));
    assert(field@ =~= cache.knowledge().traits[trait_id.0 as int].name.drop_first());
    assert(terms_of(args@)[0] == args@[0]@);
    assert(terms_of(args@)[1] == args@[1]@);
    let location = callsite_location(cache, constraint.required.callsite);
    let collection = match follow_bindings_in_cache(&args[0], cache) {
        Err(fault) => {
            return Err(fault);
        },
        Ok(collection) => collection,
    };
    let none: Vec<Type> = Vec::new();
    assert(terms_of(none@) =~= Seq::<Term>::empty());
    let found = match &collection {
        Type::UserDefined(id) => find_field_type(cache, *id, &none, &field),
        Type::TypeApplication(constructor, type_args) => {
            assert((**constructor).term() is UserDefined <==> **constructor is UserDefined);
            match &**constructor {
                Type::UserDefined(id) => find_field_type(cache, *id, type_args, &field),
                _ => Ok(None),
            }
        },
        _ => Ok(None),
    };
    match found {
        Err(fault) => Err(fault),
        Ok(None) => {
            report(UnificationError::UnresolvedTrait(trait_id.0, clone_types(args)), location, cache);
            Ok(())
        },
        Ok(Some(field_type)) => {
            unify_types(&args[1], &field_type, location, cache);
            Ok(())
        },
    }
}

/// Does each of the bindings found bind and lower only variables that the table holds?
pub open spec fn all_known(found: Seq<(usize, UnificationBindings)>, len: nat) -> bool {
    forall|i: int|
        0 <= i < found.len() ==> {
            &&& forall|id: TypeVariableId| (#[trigger] found[i]).1.bindings@.contains_key(id) ==> id < len
            &&& forall|j: int|
                0 <= j < found[i].1.level_bindings@.len() ==> (#[trigger] found[i].1.level_bindings@[j]).0 < len
        }
}

/// The models of the impls found, in order.
pub open spec fn found_of(found: Seq<(usize, UnificationBindings)>) -> Seq<(nat, Pending)> {
    Seq::new(found.len(), |i: int| (found[i].0 as nat, found[i].1@))
}

/// The impls whose types unify with those of the obligation, each with the bindings that
/// unify them.
pub fn find_matching_impls(constraint: &TraitConstraint, cache: &mut ModuleCache) -> (result: Result<
    Vec<(usize, UnificationBindings)>,
    Fault,
>)
    ensures
        ({
            let (expected, k) = matching_impls(old(cache).knowledge(), constraint@, old(cache).impl_infos@.len());
            match expected {
                Err(fault) => result matches Err(f) && f == fault,
                Ok(found) => result matches Ok(matching) && found_of(matching@) == found && final(cache).knowledge()
                    == k && all_known(matching@, final(cache).store().len()),
            }
        }),
{
    let ghost start = cache.knowledge();
    let ghost c = constraint@;
    let mut matching: Vec<(usize, UnificationBindings)> = Vec::new();
    let count = cache.impl_infos.len();
    let mut i: usize = 0;
    assert(found_of(matching@) =~= Seq::<(nat, Pending)>::empty());
    while i < count
        invariant
            i <= count,
            count == cache.impl_infos@.len(),
            count == start.impls.len(),
            count == old(cache).impl_infos@.len(),
            start == old(cache).knowledge(),
            c == constraint@,
            cache.knowledge().impls == start.impls,
            matching_impls(start, c, i as nat) == (
                Ok::<Seq<(nat, Pending)>, Fault>(found_of(matching@)),
                cache.knowledge(),
            ),
            all_known(matching@, cache.store().len()),
        decreases count - i,
    {
        assert(start.impls[i as int] == cache.impl_infos@[i as int]@);
        if cache.impl_infos[i].trait_id == constraint.required.signature.trait_id {
            let candidate = clone_types(&cache.impl_infos[i].typeargs);
            let ghost before = *cache;
            let (types, _) = match replace_all_typevars(&candidate, cache) {
                Err(fault) => {
                    proof {
                        assert(matching_impls(start, c, (i + 1) as nat).0 == Err::<Seq<(nat, Pending)>, Fault>(
                            fault,
                        ));
                        lemma_matching_fails(start, c, (i + 1) as nat, count as nat);
                    }
                    return Err(fault);
                },
                Ok(renamed) => renamed,
            };
            proof {
                lemma_knowledge_but_store(&before, cache);
                lemma_rename_grows(
                    terms_of(candidate@),
                    Renaming { fresh: Map::empty(), store: before.store() },
                    LetBindingLevel(before.current_level),
                    RECURSION_LIMIT as nat,
                );
            }
            match try_unify_all_with_bindings(
                &constraint.required.signature.args,
                &types,
                UnificationBindings::empty(),
                Location::builtin(),
                cache,
            ) {
                Ok(bindings) => {
                    proof {
                        let nothing = Pending { bindings: Map::empty(), level_bindings: Seq::empty() };
                        if terms_of(constraint.required.signature.args@).len() == terms_of(types@).len() {
                            crate::extension::lemma_unify_all_extends(
                                terms_of(constraint.required.signature.args@),
                                terms_of(types@),
                                nothing,
                                cache.store(),
                                RECURSION_LIMIT as nat,
                            );
                        }
                        assert forall|id: TypeVariableId| bindings.bindings@.contains_key(id) implies id
                            < cache.store().len() by {
                            assert(bindings@.bindings.contains_key(id));
                        }
                        assert(found_of(matching@.push((i, bindings))) =~= found_of(matching@).push(
                            (i as nat, bindings@),
                        ));
                    }
                    matching.push((i, bindings));
                },
                Err(_) => {},
            }
        }
        i += 1;
    }
    Ok(matching)
}

/// Renaming the variables of types only adds variables to the table.
pub proof fn lemma_rename_grows(types: Seq<Term>, r: Renaming, level: LetBindingLevel, fuel: nat)
    ensures
        rename_each(types, r, level, fuel).1.store.len() >= r.store.len(),
    decreases fuel, 2nat, types.len(),
{
    if types.len() > 0 {
        lemma_rename_one_grows(types[0], r, level, fuel);
        let r1 = crate::substitute::rename(types[0], r, level, fuel).1;
        lemma_rename_grows(types.drop_first(), r1, level, fuel);
    }
}

proof fn lemma_rename_one_grows(t: Term, r: Renaming, level: LetBindingLevel, fuel: nat)
    ensures
        crate::substitute::rename(t, r, level, fuel).1.store.len() >= r.store.len(),
    decreases fuel, 1nat, 0nat,
{
    match t {
        Term::TypeVariable(id) => lemma_rename_variable_grows(id, false, r, level, fuel),
        Term::Ref(id) => lemma_rename_variable_grows(id, true, r, level, fuel),
        Term::Function(parameters, return_type, environment, _) => {
            if fuel > 0 {
                let f = (fuel - 1) as nat;
                lemma_rename_grows(parameters, r, level, f);
                let r1 = rename_each(parameters, r, level, f).1;
                lemma_rename_one_grows(*return_type, r1, level, f);
                let r2 = crate::substitute::rename(*return_type, r1, level, f).1;
                lemma_rename_one_grows(*environment, r2, level, f);
            }
        },
        Term::TypeApplication(constructor, args) => {
            if fuel > 0 {
                let f = (fuel - 1) as nat;
                lemma_rename_one_grows(*constructor, r, level, f);
                let r1 = crate::substitute::rename(*constructor, r, level, f).1;
                lemma_rename_grows(args, r1, level, f);
            }
        },
        _ => {},
    }
}

proof fn lemma_rename_variable_grows(id: TypeVariableId, lifetime: bool, r: Renaming, level: LetBindingLevel, fuel: nat)
    ensures
        crate::substitute::rename_variable(id, lifetime, r, level, fuel).1.store.len() >= r.store.len(),
    decreases fuel, 0nat, 0nat,
{
    if id < r.store.len() {
        if let Binding::Bound(t) = r.store[id as int] {
            if fuel > 0 {
                lemma_rename_one_grows(t, r, level, (fuel - 1) as nat);
            }
        }
    }
}

proof fn lemma_matching_fails(k: Knowledge, c: Constraint, n: nat, m: nat)
    requires
        n <= m <= k.impls.len(),
    ensures
        matching_impls(k, c, n).0 is Err ==> matching_impls(k, c, m).0 == matching_impls(k, c, n).0,
    decreases m,
{
    if n < m {
        lemma_matching_fails(k, c, n, (m - 1) as nat);
    }
}

/// Looks at an obligation that is met by an impl.
pub fn resolve_impl_constraint(constraint: &TraitConstraint, cache: &mut ModuleCache) -> (result: Result<(), Fault>)
    ensures
        settles(result, resolve_impl(old(cache).knowledge(), constraint@), final(cache).knowledge()),
{
    let mut matching = match find_matching_impls(constraint, cache) {
        Err(fault) => {
            return Err(fault);
        },
        Ok(matching) => matching,
    };
    let trait_id = constraint.required.signature.trait_id.0;
    let callsite = constraint.required.callsite;
    if matching.len() == 0 {
        let location = callsite_location(cache, callsite);
        report(
            UnificationError::UnresolvedTrait(trait_id, clone_types(&constraint.required.signature.args)),
            location,
            cache,
        );
        Ok(())
    } else if matching.len() > 1 {
        let location = callsite_location(cache, callsite);
        report(
            UnificationError::AmbiguousImpl(trait_id, clone_types(&constraint.required.signature.args)),
            location,
            cache,
        );
        Ok(())
    } else {
        let at = callsite.id().0;
        if at >= cache.variable_infos.len() {
            return Err(Fault::UnknownDefinition(at));
        }
        let ghost found = found_of(matching@);
        assert(found[0] == (matching@[0].0 as nat, matching@[0].1@));
        let (binding, bindings) = matching.remove(0);
        let ghost k1 = cache.knowledge();
        let ghost before = *cache;
        bindings.perform(cache);
        proof {
            lemma_knowledge_but_store(&before, cache);
        }
        let chosen = RequiredImpl {
            args: clone_types(&constraint.required.signature.args),
            callsite,
            binding: ImplInfoId(binding),
        };
        let ghost committed = cache.knowledge();
        let mut info = cache.variable_infos.remove(at);
        info.required_impls.push(chosen);
        cache.variable_infos.insert(at, info);
        proof {
            let after = cache.knowledge();
            let expected = resolve_impl(old(cache).knowledge(), constraint@).1;
            assert(after.variables[at as int].required_impls =~= expected.variables[at as int].required_impls);
            assert(after.diagnostics =~= expected.diagnostics);
            assert(after.definitions =~= expected.definitions);
            assert(after.traits =~= expected.traits);
            assert(after.impls =~= expected.impls);
            assert(after.variables =~= expected.variables);
        }
        Ok(())
    }
}

/// Looks at one obligation: passes it on where one of its types mentions one of the
/// variables, and else has it met or reported.
pub fn resolve_trait(constraint: TraitConstraint, typevars: &Vec<TypeVariableId>, cache: &mut ModuleCache) -> (result:
    Result<Option<RequiredTrait>, Fault>)
    ensures
        ({
            let (expected, k) = resolve_one(old(cache).knowledge(), constraint@, typevars@);
            match expected {
                Err(fault) => result matches Err(f) && f == fault,
                Ok(None) => result matches Ok(None) && final(cache).knowledge() == k,
                Ok(Some(required)) => result matches Ok(Some(found)) && found@ == required && final(cache).knowledge() == k,
            }
        }),
{
    let args = &constraint.required.signature.args;
    let ghost all = terms_of(args@);
    let mut i: usize = 0;
    assert(all.subrange(0, all.len() as int) =~= all);
    while i < args.len()
        invariant
            i <= args.len(),
            all == terms_of(args@),
            cache == old(cache),
            args == &constraint.required.signature.args,
            any_mentions(all, typevars@, cache.store(), RECURSION_LIMIT as nat) == any_mentions(
                all.subrange(i as int, all.len() as int),
                typevars@,
                cache.store(),
                RECURSION_LIMIT as nat,
            ),
        decreases args.len() - i,
    {
        proof {
            let rest = all.subrange(i as int, all.len() as int);
            assert(rest[0] == args@[i as int]@);
            assert(rest.drop_first() =~= all.subrange(i + 1, all.len() as int));
        }
        match contains_any_typevars_from_list(&args[i], typevars, cache) {
            Err(fault) => {
                return Err(fault);
            },
            Ok(true) => {
                return Ok(Some(constraint.required));
            },
            Ok(false) => {},
        }
        i += 1;
    }
    let trait_id = constraint.required.signature.trait_id;
    let is_int = match cache.int_trait {
        Some(id) => id == trait_id,
        None => false,
    };
    let outcome = if is_int {
        resolve_int_constraint(&constraint, cache)
    } else if trait_id.0 < cache.trait_infos.len() && cache.trait_infos[trait_id.0].trait_node.is_none() {
        assert(cache.knowledge().traits[trait_id.0 as int].trait_node == cache.trait_infos@[trait_id.0 as int].trait_node);
        resolve_member_constraint(&constraint, cache)
    } else {
        proof {
            if trait_id.0 < cache.trait_infos@.len() {
                assert(cache.knowledge().traits[trait_id.0 as int].trait_node == cache.trait_infos@[trait_id.0 as int].trait_node);
            }
        }
        resolve_impl_constraint(&constraint, cache)
    };
    match outcome {
        Err(fault) => Err(fault),
        Ok(()) => Ok(None),
    }
}

proof fn lemma_resolve_fails(k: Knowledge, constraints: Seq<Constraint>, n: nat, m: nat, typevars: Seq<TypeVariableId>)
    requires
        n <= m <= constraints.len(),
    ensures
        resolve_all(k, constraints, n, typevars).0 is Err ==> resolve_all(k, constraints, m, typevars).0
            == resolve_all(k, constraints, n, typevars).0,
    decreases m,
{
    if n < m {
        lemma_resolve_fails(k, constraints, n, (m - 1) as nat, typevars);
    }
}

/// Resolves the obligations that arose inside a definition. Those whose types mention
/// one of the type variables of the signature of the definition are passed on to the
/// users of the definition, and are what is returned. Each of the others is met by the
/// one impl whose types unify with its types, which is then chosen for the occurrence at
/// which the obligation arose; where there is none or more than one, that is reported.
pub fn resolve_traits(constraints: Vec<TraitConstraint>, typevars_in_fn: &Vec<TypeVariableId>, cache: &mut ModuleCache) -> (result:
    Result<Vec<RequiredTrait>, Fault>)
    ensures
        ({
            let (expected, k) = resolve_all(
                old(cache).knowledge(),
                constraints_of(constraints@),
                constraints@.len(),
                typevars_in_fn@,
            );
            match expected {
                Err(fault) => result matches Err(f) && f == fault,
                Ok(passed) => result matches Ok(found) && required_of(found@) == passed && final(cache).knowledge()
                    == k,
            }
        }),
{
    let ghost all = constraints_of(constraints@);
    let ghost start = cache.knowledge();
    let total = constraints.len();
    let mut rest = constraints;
    let mut reversed: Vec<TraitConstraint> = Vec::new();
    while rest.len() > 0
        invariant
            rest@.len() + reversed@.len() == total,
            total == all.len(),
            forall|j: int| 0 <= j < rest@.len() ==> (#[trigger] rest@[j])@ == all[j],
            forall|j: int| 0 <= j < reversed@.len() ==> (#[trigger] reversed@[j])@ == all[total - 1 - j],
        decreases rest.len(),
    {
        let last = rest.pop().unwrap();
        reversed.push(last);
    }
    let mut propagated: Vec<RequiredTrait> = Vec::new();
    let mut i: usize = 0;
    assert(required_of(propagated@) =~= Seq::<(Signature, Callsite)>::empty());
    while i < total
        invariant
            i <= total,
            total == all.len(),
            total == constraints@.len(),
            all == constraints_of(constraints@),
            start == old(cache).knowledge(),
            reversed@.len() == total - i,
            forall|j: int| 0 <= j < reversed@.len() ==> (#[trigger] reversed@[j])@ == all[total - 1 - j],
            resolve_all(start, all, i as nat, typevars_in_fn@) == (
                Ok::<Seq<(Signature, Callsite)>, Fault>(required_of(propagated@)),
                cache.knowledge(),
            ),
        decreases total - i,
    {
        let constraint = reversed.pop().unwrap();
        assert(constraint@ == all[i as int]);
        match resolve_trait(constraint, typevars_in_fn, cache) {
            Err(fault) => {
                proof {
                    assert(resolve_all(start, all, (i + 1) as nat, typevars_in_fn@).0 == Err::<
                        Seq<(Signature, Callsite)>,
                        Fault,
                    >(fault));
                    lemma_resolve_fails(start, all, (i + 1) as nat, total as nat, typevars_in_fn@);
                }
                return Err(fault);
            },
            Ok(Some(required)) => {
                proof {
                    assert(required_of(propagated@.push(required)) =~= required_of(propagated@).push(required@));
                }
                propagated.push(required);
            },
            Ok(None) => {},
        }
        i += 1;
    }
    Ok(propagated)
}

} // verus!
