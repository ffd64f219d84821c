//! Substitution of bindings into types.
use vstd::prelude::*;
use std::collections::HashMap;
use crate::cache::{Binding, ModuleCache, TypeBinding, TypeInfo};
use crate::error::Fault;
use crate::sequence::{after, lemma_try_map_end, lemma_try_map_start, lemma_try_map_step, try_map};
use crate::types::{
    lemma_terms_of_push, terms_of, FunctionType, Kind, LetBindingLevel, Term, Type, TypeVariableId,
};
use crate::unify::{bindings_model, visited, TypeBindings, RECURSION_LIMIT};

verus! {

broadcast use vstd::std_specs::hash::group_hash_axioms;

/// A reference whose lifetime variable stands for `bound`: a reference with the lifetime
/// that `bound` names, if it names one.
pub open spec fn as_reference(lifetime: TypeVariableId, bound: Result<Term, Fault>) -> Result<Term, Fault> {
    match bound {
        Err(fault) => Err(fault),
        Ok(Term::TypeVariable(id)) => Ok(Term::Ref(id)),
        Ok(Term::Ref(id)) => Ok(Term::Ref(id)),
        Ok(_) => Err(Fault::LifetimeBoundToType(lifetime)),
    }
}

/// The type `t` with each variable that has a binding in `bindings` replaced by it, and
/// each other variable that the table binds replaced by what it is bound to, in which the
/// same is done. What `bindings` gives is taken as it is.
pub open spec fn bind(
    t: Term,
    bindings: Map<TypeVariableId, Term>,
    store: Seq<Binding>,
    fuel: nat,
) -> Result<Term, Fault>
    decreases fuel, 1nat,
{
    match t {
        Term::Primitive(_) => Ok(t),
        Term::UserDefined(_) => Ok(t),
        Term::TypeVariable(id) => bind_variable(id, false, bindings, store, fuel),
        Term::Ref(lifetime) => as_reference(lifetime, bind_variable(lifetime, true, bindings, store, fuel)),
        Term::Function(parameters, return_type, environment, is_varargs) => if fuel == 0 {
            Err(Fault::RecursionLimit)
        } else {
            match try_map(parameters, binder(bindings, store, (fuel - 1) as nat)) {
                Err(fault) => Err(fault),
                Ok(bound_parameters) => match bind(*return_type, bindings, store, (fuel - 1) as nat) {
                    Err(fault) => Err(fault),
                    Ok(bound_return) => match bind(*environment, bindings, store, (fuel - 1) as nat) {
                        Err(fault) => Err(fault),
                        Ok(bound_environment) => Ok(
                            Term::Function(
                                bound_parameters,
                                Box::new(bound_return),
                                Box::new(bound_environment),
                                is_varargs,
                            ),
                        ),
                    },
                },
            }
        },
        Term::TypeApplication(constructor, args) => if fuel == 0 {
            Err(Fault::RecursionLimit)
        } else {
            match bind(*constructor, bindings, store, (fuel - 1) as nat) {
                Err(fault) => Err(fault),
                Ok(bound_constructor) => match try_map(args, binder(bindings, store, (fuel - 1) as nat)) {
                    Err(fault) => Err(fault),
                    Ok(bound_args) => Ok(Term::TypeApplication(Box::new(bound_constructor), bound_args)),
                },
            }
        },
    }
}

/// [`bind`] as a function of the type alone.
pub open spec fn binder(bindings: Map<TypeVariableId, Term>, store: Seq<Binding>, fuel: nat) -> spec_fn(
    Term,
) -> Result<Term, Fault>
    decreases fuel, 2nat,
{
    |t: Term| bind(t, bindings, store, fuel)
}

/// What the variable `id` is replaced by: its binding in `bindings`; else what the table
/// binds it to, with the bindings made in that; else itself, as a reference where
/// `lifetime` is set and as a type variable where not.
pub open spec fn bind_variable(
    id: TypeVariableId,
    lifetime: bool,
    bindings: Map<TypeVariableId, Term>,
    store: Seq<Binding>,
    fuel: nat,
) -> Result<Term, Fault>
    decreases fuel, 0nat,
{
    if bindings.contains_key(id) {
        Ok(bindings[id])
    } else if id >= store.len() {
        Err(Fault::UnknownTypeVariable(id))
    } else {
        match store[id as int] {
            Binding::Bound(t) => if fuel == 0 {
                Err(Fault::RecursionLimit)
            } else {
                bind(t, bindings, store, (fuel - 1) as nat)
            },
            Binding::Unbound(_, _) => Ok(
                if lifetime {
                    Term::Ref(id)
                } else {
                    Term::TypeVariable(id)
                },
            ),
        }
    }
}

/// Does `result` hold the model `expected`, or the same fault?
pub open spec fn yields(result: Result<Type, Fault>, expected: Result<Term, Fault>) -> bool {
    match result {
        Ok(t) => expected == Ok::<Term, Fault>(t@),
        Err(fault) => expected == Err::<Term, Fault>(fault),
    }
}

/// Does `result` hold the models `expected`, or the same fault?
pub open spec fn yield_all(result: Result<Vec<Type>, Fault>, expected: Result<Seq<Term>, Fault>) -> bool {
    match result {
        Ok(types) => expected == Ok::<Seq<Term>, Fault>(terms_of(types@)),
        Err(fault) => expected == Err::<Seq<Term>, Fault>(fault),
    }
}

fn bind_each(types: &Vec<Type>, type_bindings: &TypeBindings, cache: &ModuleCache, fuel: u32) -> (result:
    Result<Vec<Type>, Fault>)
    ensures
        yield_all(
            result,
            try_map(terms_of(types@), binder(bindings_model(type_bindings@), cache.store(), fuel as nat)),
        ),
    decreases fuel, 2nat,
{
    let ghost all = terms_of(types@);
    let ghost f = binder(bindings_model(type_bindings@), cache.store(), fuel as nat);
    let mut bound: Vec<Type> = Vec::new();
    let mut i: usize = 0;
    proof {
        lemma_try_map_start(all, f);
        assert(terms_of(bound@) =~= Seq::<Term>::empty());
    }
    while i < types.len()
        invariant
            i <= types.len(),
            all == terms_of(types@),
            f == binder(bindings_model(type_bindings@), cache.store(), fuel as nat),
            try_map(all, f) == after(terms_of(bound@), try_map(all.subrange(i as int, all.len() as int), f)),
        decreases types.len() - i,
    {
        proof {
            lemma_try_map_step(all, f, terms_of(bound@), i as int);
            assert(all[i as int] == types@[i as int]@);
        }
        match bind_typevars_within(&types[i], type_bindings, cache, fuel) {
            Err(fault) => {
                return Err(fault);
            },
            Ok(typ) => {
                proof {
                    lemma_terms_of_push(bound@, typ);
                }
                bound.push(typ);
            },
        }
        i += 1;
    }
    proof {
        lemma_try_map_end(all, f, terms_of(bound@));
    }
    Ok(bound)
}

fn bind_typevars_within(typ: &Type, type_bindings: &TypeBindings, cache: &ModuleCache, fuel: u32) -> (result:
    Result<Type, Fault>)
    ensures
        yields(result, bind(typ@, bindings_model(type_bindings@), cache.store(), fuel as nat)),
    decreases fuel, 1nat,
{
    match typ {
        Type::Primitive(p) => Ok(Type::Primitive(*p)),
        Type::TypeVariable(id) => bind_typevar(*id, type_bindings, false, cache, fuel),
        Type::Function(function) => {
            if fuel == 0 {
                return Err(Fault::RecursionLimit);
            }
            let parameters = match bind_each(&function.parameters, type_bindings, cache, fuel - 1) {
                Err(fault) => {
                    return Err(fault);
                },
                Ok(parameters) => parameters,
            };
            let return_type = match bind_typevars_within(&function.return_type, type_bindings, cache, fuel - 1) {
                Err(fault) => {
                    return Err(fault);
                },
                Ok(return_type) => return_type,
            };
            let environment = match bind_typevars_within(&function.environment, type_bindings, cache, fuel - 1) {
                Err(fault) => {
                    return Err(fault);
                },
                Ok(environment) => environment,
            };
            Ok(
                Type::Function(
                    FunctionType {
                        parameters,
                        return_type: Box::new(return_type),
                        environment: Box::new(environment),
                        is_varargs: function.is_varargs,
                    },
                ),
            )
        },
        Type::UserDefined(id) => Ok(Type::UserDefined(*id)),
        Type::Ref(lifetime) => match bind_typevar(*lifetime, type_bindings, true, cache, fuel) {
            Err(fault) => Err(fault),
            Ok(Type::TypeVariable(new_lifetime)) => Ok(Type::Ref(new_lifetime)),
            Ok(Type::Ref(new_lifetime)) => Ok(Type::Ref(new_lifetime)),
            Ok(_) => Err(Fault::LifetimeBoundToType(*lifetime)),
        },
        Type::TypeApplication(constructor, args) => {
            if fuel == 0 {
                return Err(Fault::RecursionLimit);
            }
            let constructor = match bind_typevars_within(constructor, type_bindings, cache, fuel - 1) {
                Err(fault) => {
                    return Err(fault);
                },
                Ok(constructor) => constructor,
            };
            let args = match bind_each(args, type_bindings, cache, fuel - 1) {
                Err(fault) => {
                    return Err(fault);
                },
                Ok(args) => args,
            };
            Ok(Type::TypeApplication(Box::new(constructor), args))
        },
    }
}

/// Replace any type variables found with the given bindings, and any other that the cache
/// binds with its binding.
///
/// An unbound variable without a binding stays as it is: with no bindings given and none
/// in the cache, the result is a copy of the type.
pub fn bind_typevars(typ: &Type, type_bindings: &TypeBindings, cache: &ModuleCache) -> (result: Result<
    Type,
    Fault,
>)
    ensures
        yields(result, bind(typ@, bindings_model(type_bindings@), cache.store(), RECURSION_LIMIT as nat)),
{
    bind_typevars_within(typ, type_bindings, cache, RECURSION_LIMIT)
}

/// Binds a single variable: to its binding in `type_bindings` if it has one there, which
/// is looked up first; else through the cache. A variable that neither binds stays: as a
/// reference where `lifetime` is set, as a type variable where not.
pub fn bind_typevar(
    id: TypeVariableId,
    type_bindings: &TypeBindings,
    lifetime: bool,
    cache: &ModuleCache,
    fuel: u32,
) -> (result: Result<Type, Fault>)
    ensures
        yields(
            result,
            bind_variable(id, lifetime, bindings_model(type_bindings@), cache.store(), fuel as nat),
        ),
    decreases fuel, 0nat,
{
    match type_bindings.get(&id) {
        Some(binding) => Ok(binding.clone()),
        None => {
            if id >= cache.type_bindings.len() {
                return Err(Fault::UnknownTypeVariable(id));
            }
            match &cache.type_bindings[id] {
                TypeBinding::Bound(typ) => {
                    if fuel == 0 {
                        Err(Fault::RecursionLimit)
                    } else {
                        bind_typevars_within(typ, type_bindings, cache, fuel - 1)
                    }
                },
                TypeBinding::Unbound(_, _) => {
                    if lifetime {
                        Ok(Type::Ref(id))
                    } else {
                        Ok(Type::TypeVariable(id))
                    }
                },
            }
        },
    }
}

/// The state of a renaming: the replacement chosen for each variable met so far, and the
/// table of bindings with the variables made for them.
pub struct Renaming {
    pub fresh: Map<TypeVariableId, Term>,
    pub store: Seq<Binding>,
}

/// The outcome of renaming the variable `id`, and the state after it. A variable that the
/// table binds is renamed through its binding. An unbound one gets the replacement it was
/// given before, or else a new variable at `level`, which then is its replacement.
pub open spec fn rename_variable(
    id: TypeVariableId,
    lifetime: bool,
    r: Renaming,
    level: LetBindingLevel,
    fuel: nat,
) -> (Result<Term, Fault>, Renaming)
    decreases fuel, 0nat, 0nat,
{
    if id >= r.store.len() {
        (Err(Fault::UnknownTypeVariable(id)), r)
    } else {
        match r.store[id as int] {
            Binding::Bound(t) => if fuel == 0 {
                (Err(Fault::RecursionLimit), r)
            } else {
                rename(t, r, level, (fuel - 1) as nat)
            },
            Binding::Unbound(_, _) => if r.fresh.contains_key(id) {
                (Ok(r.fresh[id]), r)
            } else {
                let made = if lifetime {
                    Term::Ref(r.store.len() as usize)
                } else {
                    Term::TypeVariable(r.store.len() as usize)
                };
                (
                    Ok(made),
                    Renaming {
                        fresh: r.fresh.insert(id, made),
                        store: r.store.push(Binding::Unbound(level, Kind(0))),
                    },
                )
            },
        }
    }
}

/// The outcome of renaming every variable of `t`, and the state after it.
pub open spec fn rename(t: Term, r: Renaming, level: LetBindingLevel, fuel: nat) -> (
    Result<Term, Fault>,
    Renaming,
)
    decreases fuel, 1nat, 0nat,
{
    match t {
        Term::Primitive(_) => (Ok(t), r),
        Term::UserDefined(_) => (Ok(t), r),
        Term::TypeVariable(id) => rename_variable(id, false, r, level, fuel),
        Term::Ref(lifetime) => {
            let (renamed, r1) = rename_variable(lifetime, true, r, level, fuel);
            (as_reference(lifetime, renamed), r1)
        },
        Term::Function(parameters, return_type, environment, is_varargs) => if fuel == 0 {
            (Err(Fault::RecursionLimit), r)
        } else {
            let (renamed_parameters, r1) = rename_each(parameters, r, level, (fuel - 1) as nat);
            match renamed_parameters {
                Err(fault) => (Err(fault), r1),
                Ok(new_parameters) => {
                    let (renamed_return, r2) = rename(*return_type, r1, level, (fuel - 1) as nat);
                    match renamed_return {
                        Err(fault) => (Err(fault), r2),
                        Ok(new_return) => {
                            let (renamed_environment, r3) = rename(
                                *environment,
                                r2,
                                level,
                                (fuel - 1) as nat,
                            );
                            match renamed_environment {
                                Err(fault) => (Err(fault), r3),
                                Ok(new_environment) => (
                                    Ok(
                                        Term::Function(
                                            new_parameters,
                                            Box::new(new_return),
                                            Box::new(new_environment),
                                            is_varargs,
                                        ),
                                    ),
                                    r3,
                                ),
                            }
                        },
                    }
                },
            }
        },
        Term::TypeApplication(constructor, args) => if fuel == 0 {
            (Err(Fault::RecursionLimit), r)
        } else {
            let (renamed_constructor, r1) = rename(*constructor, r, level, (fuel - 1) as nat);
            match renamed_constructor {
                Err(fault) => (Err(fault), r1),
                Ok(new_constructor) => {
                    let (renamed_args, r2) = rename_each(args, r1, level, (fuel - 1) as nat);
                    match renamed_args {
                        Err(fault) => (Err(fault), r2),
                        Ok(new_args) => (Ok(Term::TypeApplication(Box::new(new_constructor), new_args)), r2),
                    }
                },
            }
        },
    }
}

/// The outcome of renaming the variables of each type of a list in turn, and the state
/// after it. It stops at the first failure.
pub open spec fn rename_each(types: Seq<Term>, r: Renaming, level: LetBindingLevel, fuel: nat) -> (
    Result<Seq<Term>, Fault>,
    Renaming,
)
    decreases fuel, 2nat, types.len(),
{
    if types.len() == 0 {
        (Ok(Seq::empty()), r)
    } else {
        let (first, r1) = rename(types[0], r, level, fuel);
        match first {
            Err(fault) => (Err(fault), r1),
            Ok(renamed) => {
                let (rest, r2) = rename_each(types.drop_first(), r1, level, fuel);
                (after(seq![renamed], rest), r2)
            },
        }
    }
}

/// The state of a renaming that has the replacements `new_bindings` and the table of
/// `cache`.
pub open spec fn renaming_of(new_bindings: &TypeBindings, cache: &ModuleCache) -> Renaming {
    Renaming { fresh: bindings_model(new_bindings@), store: cache.store() }
}

/// Helper function for getting the next type variable at the current level.
pub fn next_type_variable_id(cache: &mut ModuleCache) -> (id: TypeVariableId)
    ensures
        id == old(cache).store().len(),
        final(cache).store() == old(cache).store().push(
            Binding::Unbound(LetBindingLevel(old(cache).current_level), Kind(0)),
        ),
        final(cache).same_but_bindings(old(cache)),
{
    let level = LetBindingLevel(cache.current_level);
    cache.next_type_variable_id(level)
}

/// A new type variable at the current level.
pub fn next_type_variable(cache: &mut ModuleCache) -> (typ: Type)
    ensures
        typ@ == Term::TypeVariable(old(cache).store().len() as usize),
        final(cache).store() == old(cache).store().push(
            Binding::Unbound(LetBindingLevel(old(cache).current_level), Kind(0)),
        ),
        final(cache).same_but_bindings(old(cache)),
{
    let level = LetBindingLevel(cache.current_level);
    cache.next_type_variable(level)
}

fn replace_each(types: &Vec<Type>, new_bindings: &mut TypeBindings, cache: &mut ModuleCache, fuel: u32) -> (result:
    Result<Vec<Type>, Fault>)
    ensures
        ({
            let (expected, state) = rename_each(
                terms_of(types@),
                renaming_of(old(new_bindings), old(cache)),
                LetBindingLevel(old(cache).current_level),
                fuel as nat,
            );
            yield_all(result, expected) && renaming_of(final(new_bindings), final(cache)) == state
        }),
        final(cache).same_but_bindings(old(cache)),
    decreases fuel, 2nat,
{
    let ghost all = terms_of(types@);
    let ghost level = LetBindingLevel(cache.current_level);
    let ghost start = renaming_of(new_bindings, cache);
    let mut renamed: Vec<Type> = Vec::new();
    let mut i: usize = 0;
    proof {
        assert(all.subrange(0, all.len() as int) =~= all);
        assert(terms_of(renamed@) =~= Seq::<Term>::empty());
        let (expected, state) = rename_each(all, start, level, fuel as nat);
        if let Ok(found) = expected {
            assert(Seq::<Term>::empty() + found =~= found);
        }
    }
    while i < types.len()
        invariant
            i <= types.len(),
            all == terms_of(types@),
            level == LetBindingLevel(cache.current_level),
            start == renaming_of(old(new_bindings), old(cache)),
            cache.same_but_bindings(old(cache)),
            ({
                let (rest, state) = rename_each(
                    all.subrange(i as int, all.len() as int),
                    renaming_of(new_bindings, cache),
                    level,
                    fuel as nat,
                );
                rename_each(all, start, level, fuel as nat) == (after(terms_of(renamed@), rest), state)
            }),
        decreases types.len() - i,
    {
        let ghost rest = all.subrange(i as int, all.len() as int);
        let ghost now = renaming_of(new_bindings, cache);
        proof {
            assert(rest[0] == types@[i as int]@);
            assert(rest.drop_first() =~= all.subrange(i + 1, all.len() as int));
        }
        match replace_all_typevars_within(&types[i], new_bindings, cache, fuel) {
            Err(fault) => {
                proof {
                    let (first, r1) = rename(rest[0], now, level, fuel as nat);
                    assert(first == Err::<Term, Fault>(fault));
                    assert(rename_each(rest, now, level, fuel as nat) == (Err::<Seq<Term>, Fault>(fault), r1));
                }
                return Err(fault);
            },
            Ok(typ) => {
                proof {
                    lemma_terms_of_push(renamed@, typ);
                    let (tail, state) = rename_each(
                        rest.drop_first(),
                        renaming_of(new_bindings, cache),
                        level,
                        fuel as nat,
                    );
                    if let Ok(found) = tail {
                        assert(terms_of(renamed@) + (seq![typ@] + found) =~= terms_of(renamed@).push(typ@)
                            + found);
                    }
                }
                renamed.push(typ);
            },
        }
        i += 1;
    }
    proof {
        assert(terms_of(renamed@) + Seq::<Term>::empty() =~= terms_of(renamed@));
    }
    Ok(renamed)
}

fn replace_all_typevars_within(typ: &Type, new_bindings: &mut TypeBindings, cache: &mut ModuleCache, fuel: u32) -> (result:
    Result<Type, Fault>)
    ensures
        ({
            let (expected, state) = rename(
                typ@,
                renaming_of(old(new_bindings), old(cache)),
                LetBindingLevel(old(cache).current_level),
                fuel as nat,
            );
            yields(result, expected) && renaming_of(final(new_bindings), final(cache)) == state
        }),
        final(cache).same_but_bindings(old(cache)),
    decreases fuel, 1nat,
{
    match typ {
        Type::Primitive(p) => Ok(Type::Primitive(*p)),
        Type::TypeVariable(id) => replace_typevar_with_binding(*id, new_bindings, false, cache, fuel),
        Type::Function(function) => {
            if fuel == 0 {
                return Err(Fault::RecursionLimit);
            }
            let parameters = match replace_each(&function.parameters, new_bindings, cache, fuel - 1) {
                Err(fault) => {
                    return Err(fault);
                },
                Ok(parameters) => parameters,
            };
            let return_type = match replace_all_typevars_within(&function.return_type, new_bindings, cache, fuel - 1) {
                Err(fault) => {
                    return Err(fault);
                },
                Ok(return_type) => return_type,
            };
            let environment = match replace_all_typevars_within(&function.environment, new_bindings, cache, fuel - 1) {
                Err(fault) => {
                    return Err(fault);
                },
                Ok(environment) => environment,
            };
            Ok(
                Type::Function(
                    FunctionType {
                        parameters,
                        return_type: Box::new(return_type),
                        environment: Box::new(environment),
                        is_varargs: function.is_varargs,
                    },
                ),
            )
        },
        Type::UserDefined(id) => Ok(Type::UserDefined(*id)),
        Type::Ref(lifetime) => match replace_typevar_with_binding(*lifetime, new_bindings, true, cache, fuel) {
            Err(fault) => Err(fault),
            Ok(Type::TypeVariable(new_lifetime)) => Ok(Type::Ref(new_lifetime)),
            Ok(Type::Ref(new_lifetime)) => Ok(Type::Ref(new_lifetime)),
            Ok(_) => Err(Fault::LifetimeBoundToType(*lifetime)),
        },
        Type::TypeApplication(constructor, args) => {
            if fuel == 0 {
                return Err(Fault::RecursionLimit);
            }
            let constructor = match replace_all_typevars_within(constructor, new_bindings, cache, fuel - 1) {
                Err(fault) => {
                    return Err(fault);
                },
                Ok(constructor) => constructor,
            };
            let args = match replace_each(args, new_bindings, cache, fuel - 1) {
                Err(fault) => {
                    return Err(fault);
                },
                Ok(args) => args,
            };
            Ok(Type::TypeApplication(Box::new(constructor), args))
        },
    }
}

/// If the given variable is unbound, its replacement in `new_bindings`, where it gets a
/// new type variable if it has none yet. If it is bound, its binding with all variables
/// replaced.
///
/// `lifetime` says what wraps a newly made variable: a reference where it is set, a type
/// variable where not.
pub fn replace_typevar_with_binding(
    id: TypeVariableId,
    new_bindings: &mut TypeBindings,
    lifetime: bool,
    cache: &mut ModuleCache,
    fuel: u32,
) -> (result: Result<Type, Fault>)
    ensures
        ({
            let (expected, state) = rename_variable(
                id,
                lifetime,
                renaming_of(old(new_bindings), old(cache)),
                LetBindingLevel(old(cache).current_level),
                fuel as nat,
            );
            yields(result, expected) && renaming_of(final(new_bindings), final(cache)) == state
        }),
        final(cache).same_but_bindings(old(cache)),
    decreases fuel, 0nat,
{
    if id >= cache.type_bindings.len() {
        return Err(Fault::UnknownTypeVariable(id));
    }
    match &cache.type_bindings[id] {
        TypeBinding::Bound(typ) => {
            if fuel == 0 {
                Err(Fault::RecursionLimit)
            } else {
                let typ = typ.clone();
                replace_all_typevars_within(&typ, new_bindings, cache, fuel - 1)
            }
        },
        TypeBinding::Unbound(_, _) => {
            match new_bindings.get(&id) {
                Some(var) => Ok(var.clone()),
                None => {
                    let new_typevar = next_type_variable_id(cache);
                    let made = if lifetime {
                        Type::Ref(new_typevar)
                    } else {
                        Type::TypeVariable(new_typevar)
                    };
                    proof {
                        crate::unify::lemma_bindings_model_insert(new_bindings@, id, made);
                    }
                    new_bindings.insert(id, made.clone());
                    assert(bindings_model(new_bindings@) =~= bindings_model(old(new_bindings)@).insert(
                        id,
                        made@,
                    ));
                    Ok(made)
                },
            }
        },
    }
}

/// Replace all type variables in the given type, using `new_bindings` to look up what
/// each variable should be replaced by, inserting a fresh type variable into
/// `new_bindings` for each variable that was not present.
pub fn replace_all_typevars_with_bindings(typ: &Type, new_bindings: &mut TypeBindings, cache: &mut ModuleCache) -> (result:
    Result<Type, Fault>)
    ensures
        ({
            let (expected, state) = rename(
                typ@,
                renaming_of(old(new_bindings), old(cache)),
                LetBindingLevel(old(cache).current_level),
                RECURSION_LIMIT as nat,
            );
            yields(result, expected) && renaming_of(final(new_bindings), final(cache)) == state
        }),
        final(cache).same_but_bindings(old(cache)),
{
    replace_all_typevars_within(typ, new_bindings, cache, RECURSION_LIMIT)
}

/// New types with all type variables found in the given types replaced with fresh ones,
/// along with the replacements made. A variable gets the same replacement wherever it
/// occurs.
///
/// Unlike instantiation, this replaces every type variable, also those that originate from
/// an outer scope.
pub fn replace_all_typevars(types: &Vec<Type>, cache: &mut ModuleCache) -> (result: Result<
    (Vec<Type>, TypeBindings),
    Fault,
>)
    ensures
        ({
            let (expected, state) = rename_each(
                terms_of(types@),
                Renaming { fresh: Map::empty(), store: old(cache).store() },
                LetBindingLevel(old(cache).current_level),
                RECURSION_LIMIT as nat,
            );
            &&& final(cache).store() == state.store
            &&& match result {
                Ok((renamed, bindings)) => expected == Ok::<Seq<Term>, Fault>(terms_of(renamed@))
                    && bindings_model(bindings@) == state.fresh,
                Err(fault) => expected == Err::<Seq<Term>, Fault>(fault),
            }
        }),
        final(cache).same_but_bindings(old(cache)),
{
    let mut bindings: TypeBindings = TypeBindings::new();
    assert(bindings_model(bindings@) =~= Map::<TypeVariableId, Term>::empty());
    match replace_each(types, &mut bindings, cache, RECURSION_LIMIT) {
        Err(fault) => Err(fault),
        Ok(renamed) => Ok((renamed, bindings)),
    }
}

/// The second answer, unless the first is yes or a failure.
pub open spec fn either(first: Result<bool, Fault>, second: Result<bool, Fault>) -> Result<bool, Fault> {
    match first {
        Err(fault) => Err(fault),
        Ok(true) => Ok(true),
        Ok(false) => second,
    }
}

/// Is one of the variables of `list` unbound and reachable from `t` through the bindings
/// of the table?
pub open spec fn mentions_any(t: Term, list: Seq<TypeVariableId>, store: Seq<Binding>, fuel: nat) -> Result<
    bool,
    Fault,
>
    decreases fuel, 1nat, 0nat,
{
    match t {
        Term::Primitive(_) => Ok(false),
        Term::UserDefined(_) => Ok(false),
        Term::TypeVariable(id) => variable_mentions_any(id, list, store, fuel),
        Term::Ref(lifetime) => variable_mentions_any(lifetime, list, store, fuel),
        Term::Function(parameters, return_type, environment, _) => if fuel == 0 {
            Err(Fault::RecursionLimit)
        } else {
            either(
                any_mentions(parameters, list, store, (fuel - 1) as nat),
                either(
                    mentions_any(*return_type, list, store, (fuel - 1) as nat),
                    mentions_any(*environment, list, store, (fuel - 1) as nat),
                ),
            )
        },
        Term::TypeApplication(constructor, args) => if fuel == 0 {
            Err(Fault::RecursionLimit)
        } else {
            either(
                mentions_any(*constructor, list, store, (fuel - 1) as nat),
                any_mentions(args, list, store, (fuel - 1) as nat),
            )
        },
    }
}

/// [`mentions_any`] for the variable `id`: through its binding, or of itself.
pub open spec fn variable_mentions_any(
    id: TypeVariableId,
    list: Seq<TypeVariableId>,
    store: Seq<Binding>,
    fuel: nat,
) -> Result<bool, Fault>
    decreases fuel, 0nat, 0nat,
{
    if id >= store.len() {
        Err(Fault::UnknownTypeVariable(id))
    } else {
        match store[id as int] {
            Binding::Bound(t) => if fuel == 0 {
                Err(Fault::RecursionLimit)
            } else {
                mentions_any(t, list, store, (fuel - 1) as nat)
            },
            Binding::Unbound(_, _) => Ok(list.contains(id)),
        }
    }
}

/// [`mentions_any`] for the first type of a list for which it is yes or fails.
pub open spec fn any_mentions(types: Seq<Term>, list: Seq<TypeVariableId>, store: Seq<Binding>, fuel: nat) -> Result<
    bool,
    Fault,
>
    decreases fuel, 2nat, types.len(),
{
    if types.len() == 0 {
        Ok(false)
    } else {
        either(
            mentions_any(types[0], list, store, fuel),
            any_mentions(types.drop_first(), list, store, fuel),
        )
    }
}

/// Is `id` in the list?
pub fn contains_id(list: &Vec<TypeVariableId>, id: TypeVariableId) -> (found: bool)
    ensures
        found == list@.contains(id),
{
    let mut i: usize = 0;
    while i < list.len()
        invariant
            i <= list.len(),
            forall|j: int| 0 <= j < i ==> list@[j] != id,
        decreases list.len() - i,
    {
        if list[i] == id {
            return true;
        }
        i += 1;
    }
    false
}

fn any_contains(types: &Vec<Type>, list: &Vec<TypeVariableId>, cache: &ModuleCache, fuel: u32) -> (result:
    Result<bool, Fault>)
    ensures
        result == any_mentions(terms_of(types@), list@, cache.store(), fuel as nat),
    decreases fuel, 2nat,
{
    let ghost all = terms_of(types@);
    let mut i: usize = 0;
    assert(all.subrange(0, all.len() as int) =~= all);
    while i < types.len()
        invariant
            i <= types.len(),
            all == terms_of(types@),
            any_mentions(all, list@, cache.store(), fuel as nat) == any_mentions(
                all.subrange(i as int, all.len() as int),
                list@,
                cache.store(),
                fuel as nat,
            ),
        decreases types.len() - i,
    {
        proof {
            let rest = all.subrange(i as int, all.len() as int);
            assert(rest[0] == types@[i as int]@);
            assert(rest.drop_first() =~= all.subrange(i + 1, all.len() as int));
        }
        match contains_within(&types[i], list, cache, fuel) {
            Err(fault) => {
                return Err(fault);
            },
            Ok(true) => {
                return Ok(true);
            },
            Ok(false) => {},
        }
        i += 1;
    }
    Ok(false)
}

fn contains_within(typ: &Type, list: &Vec<TypeVariableId>, cache: &ModuleCache, fuel: u32) -> (result: Result<
    bool,
    Fault,
>)
    ensures
        result == mentions_any(typ@, list@, cache.store(), fuel as nat),
    decreases fuel, 1nat,
{
    match typ {
        Type::Primitive(_) => Ok(false),
        Type::UserDefined(_) => Ok(false),
        Type::TypeVariable(id) => type_variable_contains_any_typevars_from_list(*id, list, cache, fuel),
        Type::Function(function) => {
            if fuel == 0 {
                return Err(Fault::RecursionLimit);
            }
            match any_contains(&function.parameters, list, cache, fuel - 1) {
                Err(fault) => {
                    return Err(fault);
                },
                Ok(true) => {
                    return Ok(true);
                },
                Ok(false) => {},
            }
            match contains_within(&function.return_type, list, cache, fuel - 1) {
                Err(fault) => {
                    return Err(fault);
                },
                Ok(true) => {
                    return Ok(true);
                },
                Ok(false) => {},
            }
            contains_within(&function.environment, list, cache, fuel - 1)
        },
        Type::Ref(lifetime) => type_variable_contains_any_typevars_from_list(*lifetime, list, cache, fuel),
        Type::TypeApplication(constructor, args) => {
            if fuel == 0 {
                return Err(Fault::RecursionLimit);
            }
            match contains_within(constructor, list, cache, fuel - 1) {
                Err(fault) => {
                    return Err(fault);
                },
                Ok(true) => {
                    return Ok(true);
                },
                Ok(false) => {},
            }
            any_contains(args, list, cache, fuel - 1)
        },
    }
}

/// Recurse on `typ`, returning true if it contains any of the type variables of `list`.
pub fn contains_any_typevars_from_list(typ: &Type, list: &Vec<TypeVariableId>, cache: &ModuleCache) -> (result:
    Result<bool, Fault>)
    ensures
        result == mentions_any(typ@, list@, cache.store(), RECURSION_LIMIT as nat),
{
    contains_within(typ, list, cache, RECURSION_LIMIT)
}

/// Whether the variable, or what it is bound to, contains any of the variables of `list`.
pub fn type_variable_contains_any_typevars_from_list(
    id: TypeVariableId,
    list: &Vec<TypeVariableId>,
    cache: &ModuleCache,
    fuel: u32,
) -> (result: Result<bool, Fault>)
    ensures
        result == variable_mentions_any(id, list@, cache.store(), fuel as nat),
    decreases fuel, 0nat,
{
    if id >= cache.type_bindings.len() {
        return Err(Fault::UnknownTypeVariable(id));
    }
    match &cache.type_bindings[id] {
        TypeBinding::Bound(typ) => {
            if fuel == 0 {
                Err(Fault::RecursionLimit)
            } else {
                contains_within(typ, list, cache, fuel - 1)
            }
        },
        TypeBinding::Unbound(_, _) => Ok(contains_id(list, id)),
    }
}

/// The bindings of the first `n` variables to the first `n` types, each in turn: where a
/// variable comes twice, its last type stands.
pub open spec fn zip_bindings(variables: Seq<TypeVariableId>, types: Seq<Term>, n: nat) -> Map<
    TypeVariableId,
    Term,
>
    decreases n,
{
    if n == 0 {
        Map::empty()
    } else {
        zip_bindings(variables, types, (n - 1) as nat).insert(variables[n - 1], types[n - 1])
    }
}

/// The lesser of two lengths.
pub open spec fn shorter(a: nat, b: nat) -> nat {
    if a <= b {
        a
    } else {
        b
    }
}

/// The bindings that apply a user-defined type to arguments: each variable that the
/// definition of the type is generic over, bound to the argument in its position.
pub fn type_application_bindings(info: &TypeInfo, typeargs: &Vec<Type>) -> (bindings: TypeBindings)
    ensures
        bindings_model(bindings@) == zip_bindings(
            info.args@,
            terms_of(typeargs@),
            shorter(info.args@.len(), typeargs@.len()),
        ),
{
    let mut bindings: TypeBindings = TypeBindings::new();
    assert(bindings_model(bindings@) =~= Map::<TypeVariableId, Term>::empty());
    let mut i: usize = 0;
    while i < info.args.len() && i < typeargs.len()
        invariant
            i <= info.args.len(),
            i <= typeargs.len(),
            bindings_model(bindings@) == zip_bindings(info.args@, terms_of(typeargs@), i as nat),
        decreases info.args.len() - i,
    {
        let typ = typeargs[i].clone();
        proof {
            crate::unify::lemma_bindings_model_insert(bindings@, info.args@[i as int], typ);
        }
        bindings.insert(info.args[i], typ);
        i += 1;
    }
    bindings
}

/// The bindings that replace each variable of `renaming` by the variable it is renamed to.
pub open spec fn renamed(renaming: Map<TypeVariableId, TypeVariableId>) -> Map<TypeVariableId, Term> {
    Map::new(
        |id: TypeVariableId| renaming.contains_key(id),
        |id: TypeVariableId| Term::TypeVariable(renaming[id]),
    )
}

/// Do the bindings `now` rename the first `n` of `keys` as `renaming` does, and nothing else?
pub open spec fn renamed_so_far(
    now: Map<TypeVariableId, Term>,
    renaming: Map<TypeVariableId, TypeVariableId>,
    keys: Seq<&TypeVariableId>,
    n: int,
) -> bool {
    forall|id: TypeVariableId|
        (#[trigger] now.contains_key(id) <==> visited(keys, n, id as int)) && (now.contains_key(id)
            ==> now[id] == Term::TypeVariable(renaming[id]))
}

proof fn lemma_rename_one(
    earlier: Map<TypeVariableId, Term>,
    now: Map<TypeVariableId, Term>,
    renaming: Map<TypeVariableId, TypeVariableId>,
    keys: Seq<&TypeVariableId>,
    n: int,
    id: TypeVariableId,
)
    requires
        renamed_so_far(earlier, renaming, keys, n),
        0 <= n < keys.len(),
        *keys[n] == id,
        now == earlier.insert(id, Term::TypeVariable(renaming[id])),
    ensures
        renamed_so_far(now, renaming, keys, n + 1),
{
    assert forall|k: TypeVariableId|
        (#[trigger] now.contains_key(k) <==> visited(keys, n + 1, k as int)) && (now.contains_key(k)
            ==> now[k] == Term::TypeVariable(renaming[k])) by {
        assert(earlier.contains_key(k) <==> visited(keys, n, k as int));
        if k == id {
            assert(*keys[n] == k as int);
        } else {
            if visited(keys, n, k as int) {
                let j = choose|j: int| 0 <= j < n && #[trigger] *keys[j] == k as int;
                assert(0 <= j < n + 1 && *keys[j] == k as int);
            }
            if visited(keys, n + 1, k as int) {
                let j = choose|j: int| 0 <= j < n + 1 && #[trigger] *keys[j] == k as int;
                assert(j != n);
                assert(0 <= j < n && *keys[j] == k as int);
            }
        }
    }
}

proof fn lemma_all_renamed(
    now: Map<TypeVariableId, Term>,
    renaming: Map<TypeVariableId, TypeVariableId>,
    keys: Seq<&TypeVariableId>,
)
    requires
        keys.unref().to_set() == renaming.dom(),
        renamed_so_far(now, renaming, keys, keys.len() as int),
    ensures
        now == renamed(renaming),
{
    assert forall|k: TypeVariableId| #[trigger] now.contains_key(k) <==> renaming.contains_key(k) by {
        assert(now.contains_key(k) <==> visited(keys, keys.len() as int, k as int));
        if visited(keys, keys.len() as int, k as int) {
            let j = choose|j: int| 0 <= j < keys.len() && #[trigger] *keys[j] == k as int;
            assert(keys.unref()[j] == k);
            assert(keys.unref().to_set().contains(k));
        }
        if renaming.contains_key(k) {
            assert(keys.unref().to_set().contains(k));
            let j = choose|j: int| 0 <= j < keys.unref().len() && keys.unref()[j] == k;
            assert(*keys[j] == k as int);
        }
    }
    assert(now =~= renamed(renaming));
}

/// The bindings that replace each variable of `renaming` by the variable it is renamed to.
pub fn renaming_bindings(renaming: &HashMap<TypeVariableId, TypeVariableId>) -> (bindings: TypeBindings)
    ensures
        bindings_model(bindings@) == renamed(renaming@),
{
    let mut bindings: TypeBindings = TypeBindings::new();
    proof {
        assert(bindings_model(bindings@) =~= Map::<TypeVariableId, Term>::empty());
        assert forall|keys: Seq<&TypeVariableId>|
            keys.unref().to_set() == renaming@.dom() && #[trigger] renamed_so_far(
                bindings_model(bindings@),
                renaming@,
                keys,
                keys.len() as int,
            ) implies bindings_model(bindings@) == renamed(renaming@) by {
            lemma_all_renamed(bindings_model(bindings@), renaming@, keys);
        }
    }
    for id in keys: renaming.keys()
        invariant
            keys.seq().unref().to_set() == renaming@.dom(),
            renamed_so_far(bindings_model(bindings@), renaming@, keys.seq(), keys.index()),
            keys.index() == keys.seq().len() ==> bindings_model(bindings@) == renamed(renaming@),
    {
        let ghost n = keys.index();
        let ghost earlier = bindings_model(bindings@);
        assert(keys.seq().unref()[n] == *id);
        assert(keys.seq().unref().to_set().contains(*id));
        let to = *renaming.get(id).unwrap();
        proof {
            crate::unify::lemma_bindings_model_insert(bindings@, *id, Type::TypeVariable(to));
        }
        bindings.insert(*id, Type::TypeVariable(to));
        proof {
            let now = bindings_model(bindings@);
            assert forall|ks: Seq<&TypeVariableId>|
                0 <= n < ks.len() && *ks[n] == *id && #[trigger] renamed_so_far(
                    earlier,
                    renaming@,
                    ks,
                    n,
                ) implies renamed_so_far(now, renaming@, ks, n + 1) by {
                lemma_rename_one(earlier, now, renaming@, ks, n, *id);
            }
            assert forall|ks: Seq<&TypeVariableId>|
                ks.unref().to_set() == renaming@.dom() && #[trigger] renamed_so_far(
                    now,
                    renaming@,
                    ks,
                    ks.len() as int,
                ) implies now == renamed(renaming@) by {
                lemma_all_renamed(now, renaming@, ks);
            }
        }
    }
    bindings
}

/// Replace any type variables found in `typevars_to_replace` with the variable that it
/// gives for them, and leave the others.
pub fn replace_typevars(
    typ: &Type,
    typevars_to_replace: &HashMap<TypeVariableId, TypeVariableId>,
    cache: &ModuleCache,
) -> (result: Result<Type, Fault>)
    ensures
        yields(result, bind(typ@, renamed(typevars_to_replace@), cache.store(), RECURSION_LIMIT as nat)),
{
    let bindings = renaming_bindings(typevars_to_replace);
    bind_typevars(typ, &bindings, cache)
}

} // verus!
