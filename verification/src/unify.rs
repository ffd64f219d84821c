//! Unification of type terms.
//!
//! Unifying two types does not touch the cache: the bindings it finds are gathered in a
//! [`UnificationBindings`], which the caller may commit to the cache or drop. Every walk
//! over a chain of bindings or into a nested type is cut off at [`RECURSION_LIMIT`].
use vstd::prelude::*;
use std::collections::HashMap;
use crate::cache::{Binding, ModuleCache, TypeBinding};
use crate::error::{ErrorMessage, Fault, Location, Mismatch, UnificationError};
use crate::types::{LetBindingLevel, Term, Type, TypeVariableId};

verus! {

broadcast use vstd::std_specs::hash::group_hash_axioms;

/// How deep a walk over bindings and nested types may go.
pub const RECURSION_LIMIT: u32 = 500;

/// A sparse set of bindings of type variables.
pub type TypeBindings = HashMap<TypeVariableId, Type>;

/// Levels to which type variables are to be lowered.
pub type LevelBindings = Vec<(TypeVariableId, LetBindingLevel)>;

/// The model of a [`TypeBindings`]: the same keys, each with the model of its type.
pub open spec fn bindings_model(bindings: Map<TypeVariableId, Type>) -> Map<TypeVariableId, Term> {
    Map::new(|id: TypeVariableId| bindings.contains_key(id), |id: TypeVariableId| bindings[id]@)
}

/// The model of a [`UnificationBindings`].
pub struct Pending {
    pub bindings: Map<TypeVariableId, Term>,
    pub level_bindings: Seq<(TypeVariableId, LetBindingLevel)>,
}

/// The bindings that a unification has found and not yet committed to the cache.
#[derive(Debug)]
pub struct UnificationBindings {
    pub bindings: TypeBindings,
    pub level_bindings: LevelBindings,
}

impl View for UnificationBindings {
    type V = Pending;

    open spec fn view(&self) -> Pending {
        Pending {
            bindings: bindings_model(self.bindings@),
            level_bindings: self.level_bindings@,
        }
    }
}

/// What the variable `id` stands for: its pending binding if it has one, else what the
/// cache says of it. `None` if it has no pending binding and the cache does not hold the
/// variable.
pub open spec fn find(
    id: TypeVariableId,
    pending: Map<TypeVariableId, Term>,
    store: Seq<Binding>,
) -> Option<Binding> {
    if pending.contains_key(id) {
        Some(Binding::Bound(pending[id]))
    } else if id < store.len() {
        Some(store[id as int])
    } else {
        None
    }
}

/// The first type that is not a bound variable on the chain of bindings that starts at
/// `t`, where at most `fuel` links are followed.
pub open spec fn follow(
    t: Term,
    pending: Map<TypeVariableId, Term>,
    store: Seq<Binding>,
    fuel: nat,
) -> Result<Term, Fault>
    decreases fuel,
{
    match t {
        Term::TypeVariable(id) | Term::Ref(id) => match find(id, pending, store) {
            None => Err(Fault::UnknownTypeVariable(id)),
            Some(Binding::Bound(next)) => if fuel == 0 {
                Err(Fault::RecursionLimit)
            } else {
                follow(next, pending, store, (fuel - 1) as nat)
            },
            Some(Binding::Unbound(_, _)) => Ok(t),
        },
        _ => Ok(t),
    }
}

/// The result of an occurs check: whether the variable was found, and the levels to lower.
pub type Occurrence = (bool, Seq<(TypeVariableId, LetBindingLevel)>);

/// Runs `second` after `first` unless `first` has found the variable or failed.
pub open spec fn chain(
    first: Result<Occurrence, Fault>,
    second: Result<Occurrence, Fault>,
) -> Result<Occurrence, Fault> {
    match first {
        Err(fault) => Err(fault),
        Ok((true, levels)) => Ok((true, levels)),
        Ok((false, levels)) => match second {
            Err(fault) => Err(fault),
            Ok((found, more)) => Ok((found, levels + more)),
        },
    }
}

/// Whether the unbound variable `id` is reachable from `t` through the bindings, and for
/// each unbound variable met on the way whose level is above `level`, the pair of that
/// variable and `level`. The walk stops at the first occurrence.
pub open spec fn occurs_in(
    id: TypeVariableId,
    level: LetBindingLevel,
    t: Term,
    pending: Map<TypeVariableId, Term>,
    store: Seq<Binding>,
    fuel: nat,
) -> Result<Occurrence, Fault>
    decreases fuel, 1nat, 0nat,
{
    match t {
        Term::Primitive(_) => Ok((false, Seq::empty())),
        Term::UserDefined(_) => Ok((false, Seq::empty())),
        Term::TypeVariable(v) => occurs_in_variable(id, level, v, pending, store, fuel),
        Term::Ref(v) => occurs_in_variable(id, level, v, pending, store, fuel),
        Term::Function(parameters, return_type, environment, _) => if fuel == 0 {
            Err(Fault::RecursionLimit)
        } else {
            chain(
                occurs_in(id, level, *return_type, pending, store, (fuel - 1) as nat),
                chain(
                    occurs_in(id, level, *environment, pending, store, (fuel - 1) as nat),
                    occurs_in_all(id, level, parameters, pending, store, (fuel - 1) as nat),
                ),
            )
        },
        Term::TypeApplication(constructor, args) => if fuel == 0 {
            Err(Fault::RecursionLimit)
        } else {
            chain(
                occurs_in(id, level, *constructor, pending, store, (fuel - 1) as nat),
                occurs_in_all(id, level, args, pending, store, (fuel - 1) as nat),
            )
        },
    }
}

/// The occurs check on the variable `v`: through its binding if it has one, else on the
/// variable itself.
pub open spec fn occurs_in_variable(
    id: TypeVariableId,
    level: LetBindingLevel,
    v: TypeVariableId,
    pending: Map<TypeVariableId, Term>,
    store: Seq<Binding>,
    fuel: nat,
) -> Result<Occurrence, Fault>
    decreases fuel, 0nat, 0nat,
{
    match find(v, pending, store) {
        None => Err(Fault::UnknownTypeVariable(v)),
        Some(Binding::Bound(t)) => if fuel == 0 {
            Err(Fault::RecursionLimit)
        } else {
            occurs_in(id, level, t, pending, store, (fuel - 1) as nat)
        },
        Some(Binding::Unbound(original, _)) => Ok(
            (
                id == v,
                if level.0 < original.0 {
                    seq![(v, level)]
                } else {
                    Seq::empty()
                },
            ),
        ),
    }
}

/// The occurs check on each type of a list in turn.
pub open spec fn occurs_in_all(
    id: TypeVariableId,
    level: LetBindingLevel,
    types: Seq<Term>,
    pending: Map<TypeVariableId, Term>,
    store: Seq<Binding>,
    fuel: nat,
) -> Result<Occurrence, Fault>
    decreases fuel, 2nat, types.len(),
{
    if types.len() == 0 {
        Ok((false, Seq::empty()))
    } else {
        chain(
            occurs_in(id, level, types[0], pending, store, fuel),
            occurs_in_all(id, level, types.drop_first(), pending, store, fuel),
        )
    }
}

impl UnificationBindings {
    /// No bindings.
    pub fn empty() -> (bindings: UnificationBindings)
        ensures
            bindings@.bindings == Map::<TypeVariableId, Term>::empty(),
            bindings@.level_bindings == Seq::<(TypeVariableId, LetBindingLevel)>::empty(),
    {
        let bindings = UnificationBindings { bindings: HashMap::new(), level_bindings: Vec::new() };
        assert(bindings@.bindings =~= Map::<TypeVariableId, Term>::empty());
        bindings
    }

    /// The given bindings.
    pub fn new(bindings: TypeBindings, level_bindings: LevelBindings) -> (unification: UnificationBindings)
        ensures
            unification.bindings == bindings,
            unification.level_bindings == level_bindings,
    {
        UnificationBindings { bindings, level_bindings }
    }
}

/// What the variable `id` stands for under the cache and the pending bindings.
pub fn find_binding(id: TypeVariableId, map: &UnificationBindings, cache: &ModuleCache) -> (binding: Result<TypeBinding, Fault>)
    ensures
        match binding {
            Ok(b) => find(id, map@.bindings, cache.store()) == Some(b@),
            Err(fault) => find(id, map@.bindings, cache.store()).is_none()
                && fault == Fault::UnknownTypeVariable(id),
        },
{
    match map.bindings.get(&id) {
        Some(typ) => Ok(TypeBinding::Bound(typ.clone())),
        None => {
            if id >= cache.type_bindings.len() {
                return Err(Fault::UnknownTypeVariable(id));
            }
            Ok(cache.type_bindings[id].clone())
        },
    }
}

fn follow_bindings_within(typ: &Type, bindings: &UnificationBindings, cache: &ModuleCache, fuel: u32) -> (followed: Result<Type, Fault>)
    ensures
        match followed {
            Ok(t) => follow(typ@, bindings@.bindings, cache.store(), fuel as nat) == Ok::<Term, Fault>(t@),
            Err(fault) => follow(typ@, bindings@.bindings, cache.store(), fuel as nat) == Err::<Term, Fault>(fault),
        },
    decreases fuel,
{
    match typ {
        Type::TypeVariable(id) | Type::Ref(id) => match find_binding(*id, bindings, cache) {
            Err(fault) => Err(fault),
            Ok(TypeBinding::Bound(next)) => {
                if fuel == 0 {
                    Err(Fault::RecursionLimit)
                } else {
                    follow_bindings_within(&next, bindings, cache, fuel - 1)
                }
            },
            Ok(TypeBinding::Unbound(_, _)) => Ok(typ.clone()),
        },
        _ => Ok(typ.clone()),
    }
}

/// What a type is bound to: follows the links from variable to binding, through the cache
/// and the pending bindings, until it reaches a type that is not a bound variable.
pub fn follow_bindings_in_cache_and_map(typ: &Type, bindings: &UnificationBindings, cache: &ModuleCache) -> (followed: Result<Type, Fault>)
    ensures
        match followed {
            Ok(t) => follow(typ@, bindings@.bindings, cache.store(), RECURSION_LIMIT as nat) == Ok::<Term, Fault>(t@),
            Err(fault) => follow(typ@, bindings@.bindings, cache.store(), RECURSION_LIMIT as nat) == Err::<Term, Fault>(fault),
        },
{
    follow_bindings_within(typ, bindings, cache, RECURSION_LIMIT)
}

/// What a type is bound to in the cache alone.
pub fn follow_bindings_in_cache(typ: &Type, cache: &ModuleCache) -> (followed: Result<Type, Fault>)
    ensures
        match followed {
            Ok(t) => follow(typ@, Map::empty(), cache.store(), RECURSION_LIMIT as nat) == Ok::<Term, Fault>(t@),
            Err(fault) => follow(typ@, Map::empty(), cache.store(), RECURSION_LIMIT as nat) == Err::<Term, Fault>(fault),
        },
{
    let none = UnificationBindings::empty();
    follow_bindings_within(typ, &none, cache, RECURSION_LIMIT)
}

/// What an occurs check has found so far.
#[derive(Debug)]
pub struct OccursResult {
    pub occurs: bool,
    pub level_bindings: LevelBindings,
}

impl View for OccursResult {
    type V = Occurrence;

    open spec fn view(&self) -> Occurrence {
        (self.occurs, self.level_bindings@)
    }
}

/// Running three checks in a row groups either way.
pub proof fn lemma_chain_associative(
    a: Result<Occurrence, Fault>,
    b: Result<Occurrence, Fault>,
    c: Result<Occurrence, Fault>,
)
    ensures
        chain(chain(a, b), c) == chain(a, chain(b, c)),
{
    if let Ok((false, la)) = a {
        if let Ok((false, lb)) = b {
            if let Ok((found, lc)) = c {
                assert((la + lb) + lc =~= la + (lb + lc));
            }
        }
    }
}

impl OccursResult {
    /// The variable does not occur, and no level is to be lowered.
    pub fn does_not_occur() -> (result: OccursResult)
        ensures
            result@ == (false, Seq::<(TypeVariableId, LetBindingLevel)>::empty()),
    {
        OccursResult { occurs: false, level_bindings: Vec::new() }
    }

    pub fn new(occurs: bool, level_bindings: LevelBindings) -> (result: OccursResult)
        ensures
            result.occurs == occurs,
            result.level_bindings == level_bindings,
    {
        OccursResult { occurs, level_bindings }
    }

    /// Takes over what a later check found, unless this one has found the variable.
    pub fn and_then(self, other: OccursResult) -> (result: OccursResult)
        ensures
            Ok::<Occurrence, Fault>(result@) == chain(Ok(self@), Ok(other@)),
    {
        let mut result = self;
        if !result.occurs {
            let mut other = other;
            result.occurs = other.occurs;
            result.level_bindings.append(&mut other.level_bindings);
        }
        result
    }

    /// Checks each type of `types` in turn, unless this check has found the variable, and
    /// stops at the first type in which it occurs.
    pub fn then_all(
        self,
        id: TypeVariableId,
        level: LetBindingLevel,
        types: &Vec<Type>,
        bindings: &UnificationBindings,
        cache: &ModuleCache,
        fuel: u32,
    ) -> (result: Result<OccursResult, Fault>)
        ensures
            ({
                let expected = chain(
                    Ok(self@),
                    occurs_in_all(
                        id,
                        level,
                        crate::types::terms_of(types@),
                        bindings@.bindings,
                        cache.store(),
                        fuel as nat,
                    ),
                );
                match result {
                    Ok(found) => expected == Ok::<Occurrence, Fault>(found@),
                    Err(fault) => expected == Err::<Occurrence, Fault>(fault),
                }
            }),
        decreases fuel, 2nat,
    {
        let ghost all = crate::types::terms_of(types@);
        let ghost pending = bindings@.bindings;
        let ghost store = cache.store();
        let mut result = self;
        if result.occurs {
            return Ok(result);
        }
        let mut i: usize = 0;
        assert(all.subrange(0, all.len() as int) =~= all);
        while i < types.len()
            invariant
                i <= types.len(),
                !result.occurs,
                all == crate::types::terms_of(types@),
                pending == bindings@.bindings,
                store == cache.store(),
                chain(Ok(self@), occurs_in_all(id, level, all, pending, store, fuel as nat))
                    == chain(
                    Ok(result@),
                    occurs_in_all(
                        id,
                        level,
                        all.subrange(i as int, all.len() as int),
                        pending,
                        store,
                        fuel as nat,
                    ),
                ),
            decreases types.len() - i,
        {
            let ghost rest = all.subrange(i as int, all.len() as int);
            proof {
                assert(rest.drop_first() =~= all.subrange(i + 1, all.len() as int));
                assert(rest[0] == types@[i as int]@);
                lemma_chain_associative(
                    Ok(result@),
                    occurs_in(id, level, rest[0], pending, store, fuel as nat),
                    occurs_in_all(id, level, rest.drop_first(), pending, store, fuel as nat),
                );
            }
            match occurs(id, level, &types[i], bindings, cache, fuel) {
                Err(fault) => {
                    return Err(fault);
                },
                Ok(other) => {
                    result = OccursResult::and_then(result, other);
                    if result.occurs {
                        return Ok(result);
                    }
                },
            }
            i += 1;
        }
        proof {
            assert(all.subrange(i as int, all.len() as int).len() == 0);
            assert(result@.1 + Seq::<(TypeVariableId, LetBindingLevel)>::empty() =~= result@.1);
        }
        Ok(result)
    }
}

/// Can the unbound variable `id`, which is at `level`, be found inside `typ`? Gathers on
/// the way the unbound variables of `typ` whose level is above `level`: once `id` is bound
/// to `typ` they live as long as `id` does, so their level is to be lowered to `level`.
pub fn occurs(
    id: TypeVariableId,
    level: LetBindingLevel,
    typ: &Type,
    bindings: &UnificationBindings,
    cache: &ModuleCache,
    fuel: u32,
) -> (result: Result<OccursResult, Fault>)
    ensures
        match result {
            Ok(found) => occurs_in(id, level, typ@, bindings@.bindings, cache.store(), fuel as nat)
                == Ok::<Occurrence, Fault>(found@),
            Err(fault) => occurs_in(id, level, typ@, bindings@.bindings, cache.store(), fuel as nat)
                == Err::<Occurrence, Fault>(fault),
        },
    decreases fuel, 1nat,
{
    match typ {
        Type::Primitive(_) => Ok(OccursResult::does_not_occur()),
        Type::UserDefined(_) => Ok(OccursResult::does_not_occur()),
        Type::TypeVariable(var_id) => typevars_match(id, level, *var_id, bindings, cache, fuel),
        Type::Function(function) => {
            if fuel == 0 {
                return Err(Fault::RecursionLimit);
            }
            let in_return = match occurs(id, level, &function.return_type, bindings, cache, fuel - 1) {
                Err(fault) => {
                    return Err(fault);
                },
                Ok(found) => found,
            };
            if in_return.occurs {
                return Ok(in_return);
            }
            let in_environment = match occurs(id, level, &function.environment, bindings, cache, fuel - 1) {
                Err(fault) => {
                    return Err(fault);
                },
                Ok(found) => found,
            };
            proof {
                lemma_chain_associative(
                    Ok(in_return@),
                    Ok(in_environment@),
                    occurs_in_all(
                        id,
                        level,
                        crate::types::terms_of(function.parameters@),
                        bindings@.bindings,
                        cache.store(),
                        (fuel - 1) as nat,
                    ),
                );
            }
            OccursResult::and_then(in_return, in_environment).then_all(
                id,
                level,
                &function.parameters,
                bindings,
                cache,
                fuel - 1,
            )
        },
        Type::TypeApplication(constructor, args) => {
            if fuel == 0 {
                return Err(Fault::RecursionLimit);
            }
            match occurs(id, level, constructor, bindings, cache, fuel - 1) {
                Err(fault) => Err(fault),
                Ok(found) => found.then_all(id, level, args, bindings, cache, fuel - 1),
            }
        },
        Type::Ref(lifetime) => typevars_match(id, level, *lifetime, bindings, cache, fuel),
    }
}

/// The occurs check on one variable of the haystack: through its binding if it has one,
/// else by comparing it with the needle.
pub fn typevars_match(
    needle: TypeVariableId,
    level: LetBindingLevel,
    haystack: TypeVariableId,
    bindings: &UnificationBindings,
    cache: &ModuleCache,
    fuel: u32,
) -> (result: Result<OccursResult, Fault>)
    ensures
        match result {
            Ok(found) => occurs_in_variable(
                needle,
                level,
                haystack,
                bindings@.bindings,
                cache.store(),
                fuel as nat,
            ) == Ok::<Occurrence, Fault>(found@),
            Err(fault) => occurs_in_variable(
                needle,
                level,
                haystack,
                bindings@.bindings,
                cache.store(),
                fuel as nat,
            ) == Err::<Occurrence, Fault>(fault),
        },
    decreases fuel, 0nat,
{
    match find_binding(haystack, bindings, cache) {
        Err(fault) => Err(fault),
        Ok(TypeBinding::Bound(binding)) => {
            if fuel == 0 {
                Err(Fault::RecursionLimit)
            } else {
                occurs(needle, level, &binding, bindings, cache, fuel - 1)
            }
        },
        Ok(TypeBinding::Unbound(original_level, _)) => {
            let mut lowered: LevelBindings = Vec::new();
            if level.0 < original_level.0 {
                lowered.push((haystack, level));
                assert(lowered@ =~= seq![(haystack, level)]);
            }
            Ok(OccursResult::new(needle == haystack, lowered))
        },
    }
}

/// May two function types with these parameter counts and varargs flags be unified?
/// Whether a function is variadic is never unified: where one is, the other may have
/// more parameters.
pub open spec fn parameter_counts_agree(
    count1: nat,
    is_varargs1: bool,
    count2: nat,
    is_varargs2: bool,
) -> bool {
    count1 == count2 || (is_varargs1 && count2 >= count1) || (is_varargs2 && count1 >= count2)
}

/// The outcome of unifying `t1` with `t2` on top of the bindings `p`, and the bindings
/// gathered by then. On failure these hold what was found before the failure.
pub open spec fn unify_terms(
    t1: Term,
    t2: Term,
    p: Pending,
    store: Seq<Binding>,
    fuel: nat,
) -> (Result<(), Mismatch>, Pending)
    decreases fuel, 1nat, 0nat,
{
    if t1 is Primitive && t2 is Primitive && t1->Primitive_0 == t2->Primitive_0 {
        (Ok(()), p)
    } else if t1 is UserDefined && t2 is UserDefined && t1->UserDefined_0 == t2->UserDefined_0 {
        (Ok(()), p)
    } else if let Term::TypeVariable(id) = t1 {
        unify_variable(id, t1, t2, p, store, fuel)
    } else if let Term::TypeVariable(id) = t2 {
        unify_variable(id, t2, t1, p, store, fuel)
    } else {
        match (t1, t2) {
            (
                Term::Function(parameters1, return1, environment1, is_varargs1),
                Term::Function(parameters2, return2, environment2, is_varargs2),
            ) => {
                if !parameter_counts_agree(
                    parameters1.len(),
                    is_varargs1,
                    parameters2.len(),
                    is_varargs2,
                ) {
                    (Err(Mismatch::ArgumentCountMismatch(t1, t2)), p)
                } else if fuel == 0 {
                    (Err(Mismatch::Internal(Fault::RecursionLimit)), p)
                } else {
                    let (first, p1) = unify_all(parameters1, parameters2, p, store, (fuel - 1) as nat);
                    if first is Err {
                        (first, p1)
                    } else {
                        let (second, p2) = unify_terms(*return1, *return2, p1, store, (fuel - 1) as nat);
                        if second is Err {
                            (second, p2)
                        } else {
                            unify_terms(*environment1, *environment2, p2, store, (fuel - 1) as nat)
                        }
                    }
                }
            },
            (Term::TypeApplication(constructor1, args1), Term::TypeApplication(constructor2, args2)) => {
                if args1.len() != args2.len() {
                    (Err(Mismatch::ArityMismatch(t1, t2)), p)
                } else if fuel == 0 {
                    (Err(Mismatch::Internal(Fault::RecursionLimit)), p)
                } else {
                    let (first, p1) = unify_terms(*constructor1, *constructor2, p, store, (fuel - 1) as nat);
                    if first is Err {
                        (first, p1)
                    } else {
                        unify_all(args1, args2, p1, store, (fuel - 1) as nat)
                    }
                }
            },
            (Term::Ref(lifetime), Term::Ref(_)) => unify_variable(lifetime, t1, t2, p, store, fuel),
            _ => (Err(Mismatch::TypeMismatch(t1, t2)), p),
        }
    }
}

/// The outcome of unifying the variable `id`, which is what the type `a` is or refers to,
/// with the type `b`. A bound variable is unified through its binding. An unbound one is
/// bound to what `b` is bound to, unless that is `a` itself or contains the variable.
pub open spec fn unify_variable(
    id: TypeVariableId,
    a: Term,
    b: Term,
    p: Pending,
    store: Seq<Binding>,
    fuel: nat,
) -> (Result<(), Mismatch>, Pending)
    decreases fuel, 0nat, 0nat,
{
    match find(id, p.bindings, store) {
        None => (Err(Mismatch::Internal(Fault::UnknownTypeVariable(id))), p),
        Some(Binding::Bound(bound)) => if fuel == 0 {
            (Err(Mismatch::Internal(Fault::RecursionLimit)), p)
        } else {
            unify_terms(bound, b, p, store, (fuel - 1) as nat)
        },
        Some(Binding::Unbound(level, _)) => match follow(b, p.bindings, store, fuel) {
            Err(fault) => (Err(Mismatch::Internal(fault)), p),
            Ok(target) => if a == target {
                (Ok(()), p)
            } else {
                match occurs_in(id, level, target, p.bindings, store, fuel) {
                    Err(fault) => (Err(Mismatch::Internal(fault)), p),
                    Ok((true, _)) => (Err(Mismatch::RecursiveType(a, target)), p),
                    Ok((false, levels)) => (
                        Ok(()),
                        Pending {
                            bindings: p.bindings.insert(id, target),
                            level_bindings: p.level_bindings + levels,
                        },
                    ),
                }
            },
        },
    }
}

/// The outcome of unifying two lists position by position, as far as the shorter reaches,
/// stopping at the first failure.
pub open spec fn unify_all(
    types1: Seq<Term>,
    types2: Seq<Term>,
    p: Pending,
    store: Seq<Binding>,
    fuel: nat,
) -> (Result<(), Mismatch>, Pending)
    decreases fuel, 2nat, types1.len(),
{
    if types1.len() == 0 || types2.len() == 0 {
        (Ok(()), p)
    } else {
        let (first, p1) = unify_terms(types1[0], types2[0], p, store, fuel);
        if first is Err {
            (first, p1)
        } else {
            unify_all(types1.drop_first(), types2.drop_first(), p1, store, fuel)
        }
    }
}

/// Does the result `r` report the `outcome`, at the `location`?
pub open spec fn reports(r: Result<(), ErrorMessage>, outcome: Result<(), Mismatch>, location: Location) -> bool {
    match r {
        Ok(()) => outcome is Ok,
        Err(message) => outcome == Err::<(), Mismatch>(message.error@) && message.location == location,
    }
}

/// Binding one more variable in a set of bindings binds it in the model.
pub proof fn lemma_bindings_model_insert(bindings: Map<TypeVariableId, Type>, id: TypeVariableId, typ: Type)
    ensures
        bindings_model(bindings.insert(id, typ)) == bindings_model(bindings).insert(id, typ@),
{
    assert(bindings_model(bindings.insert(id, typ)) =~= bindings_model(bindings).insert(id, typ@));
}

fn unify_all_within(
    types1: &Vec<Type>,
    types2: &Vec<Type>,
    bindings: &mut UnificationBindings,
    location: Location,
    cache: &ModuleCache,
    fuel: u32,
) -> (result: Result<(), ErrorMessage>)
    ensures
        ({
            let (outcome, pending) = unify_all(
                crate::types::terms_of(types1@),
                crate::types::terms_of(types2@),
                old(bindings)@,
                cache.store(),
                fuel as nat,
            );
            final(bindings)@ == pending && reports(result, outcome, location)
        }),
    decreases fuel, 2nat,
{
    let ghost all1 = crate::types::terms_of(types1@);
    let ghost all2 = crate::types::terms_of(types2@);
    let ghost store = cache.store();
    let mut i: usize = 0;
    assert(all1.subrange(0, all1.len() as int) =~= all1);
    assert(all2.subrange(0, all2.len() as int) =~= all2);
    while i < types1.len() && i < types2.len()
        invariant
            i <= types1.len(),
            i <= types2.len(),
            all1 == crate::types::terms_of(types1@),
            all2 == crate::types::terms_of(types2@),
            store == cache.store(),
            unify_all(all1, all2, old(bindings)@, store, fuel as nat) == unify_all(
                all1.subrange(i as int, all1.len() as int),
                all2.subrange(i as int, all2.len() as int),
                bindings@,
                store,
                fuel as nat,
            ),
        decreases types1.len() - i,
    {
        let ghost rest1 = all1.subrange(i as int, all1.len() as int);
        let ghost rest2 = all2.subrange(i as int, all2.len() as int);
        proof {
            assert(rest1.drop_first() =~= all1.subrange(i + 1, all1.len() as int));
            assert(rest2.drop_first() =~= all2.subrange(i + 1, all2.len() as int));
            assert(rest1[0] == types1@[i as int]@);
            assert(rest2[0] == types2@[i as int]@);
        }
        match try_unify_within(&types1[i], &types2[i], bindings, location, cache, fuel) {
            Err(message) => {
                return Err(message);
            },
            Ok(()) => {},
        }
        i += 1;
    }
    proof {
        assert(all1.subrange(i as int, all1.len() as int).len() == 0 || all2.subrange(
            i as int,
            all2.len() as int,
        ).len() == 0);
    }
    Ok(())
}

fn try_unify_within(
    t1: &Type,
    t2: &Type,
    bindings: &mut UnificationBindings,
    location: Location,
    cache: &ModuleCache,
    fuel: u32,
) -> (result: Result<(), ErrorMessage>)
    ensures
        ({
            let (outcome, pending) = unify_terms(t1@, t2@, old(bindings)@, cache.store(), fuel as nat);
            final(bindings)@ == pending && reports(result, outcome, location)
        }),
    decreases fuel, 1nat,
{
    match (t1, t2) {
        (Type::Primitive(p1), Type::Primitive(p2)) => {
            if *p1 == *p2 {
                Ok(())
            } else {
                Err(ErrorMessage { error: UnificationError::TypeMismatch(t1.clone(), t2.clone()), location })
            }
        },
        (Type::UserDefined(id1), Type::UserDefined(id2)) => {
            if *id1 == *id2 {
                Ok(())
            } else {
                Err(ErrorMessage { error: UnificationError::TypeMismatch(t1.clone(), t2.clone()), location })
            }
        },
        (Type::TypeVariable(id), _) => try_unify_type_variable_within(*id, t1, t2, bindings, location, cache, fuel),
        (_, Type::TypeVariable(id)) => try_unify_type_variable_within(*id, t2, t1, bindings, location, cache, fuel),
        (Type::Function(function1), Type::Function(function2)) => {
            let count1 = function1.parameters.len();
            let count2 = function2.parameters.len();
            proof {
                assert(t1@ == Term::Function(
                    crate::types::terms_of(function1.parameters@),
                    Box::new(function1.return_type@),
                    Box::new(function1.environment@),
                    function1.is_varargs,
                ));
                assert(t2@ == Term::Function(
                    crate::types::terms_of(function2.parameters@),
                    Box::new(function2.return_type@),
                    Box::new(function2.environment@),
                    function2.is_varargs,
                ));
                assert(crate::types::terms_of(function1.parameters@).len() == count1);
                assert(crate::types::terms_of(function2.parameters@).len() == count2);
            }
            if count1 != count2 {
                if !(function1.is_varargs && count2 >= count1) && !(function2.is_varargs && count1 >= count2) {
                    return Err(
                        ErrorMessage {
                            error: UnificationError::ArgumentCountMismatch(t1.clone(), t2.clone()),
                            location,
                        },
                    );
                }
            }
            if fuel == 0 {
                return Err(ErrorMessage { error: UnificationError::Internal(Fault::RecursionLimit), location });
            }
            match unify_all_within(&function1.parameters, &function2.parameters, bindings, location, cache, fuel - 1) {
                Err(message) => {
                    return Err(message);
                },
                Ok(()) => {},
            }
            match try_unify_within(&function1.return_type, &function2.return_type, bindings, location, cache, fuel - 1) {
                Err(message) => {
                    return Err(message);
                },
                Ok(()) => {},
            }
            try_unify_within(&function1.environment, &function2.environment, bindings, location, cache, fuel - 1)
        },
        (Type::TypeApplication(a_constructor, a_args), Type::TypeApplication(b_constructor, b_args)) => {
            proof {
                assert(t1@ == Term::TypeApplication(
                    Box::new(a_constructor@),
                    crate::types::terms_of(a_args@),
                ));
                assert(t2@ == Term::TypeApplication(
                    Box::new(b_constructor@),
                    crate::types::terms_of(b_args@),
                ));
                assert(crate::types::terms_of(a_args@).len() == a_args.len());
                assert(crate::types::terms_of(b_args@).len() == b_args.len());
            }
            if a_args.len() != b_args.len() {
                return Err(
                    ErrorMessage { error: UnificationError::ArityMismatch(t1.clone(), t2.clone()), location },
                );
            }
            if fuel == 0 {
                return Err(ErrorMessage { error: UnificationError::Internal(Fault::RecursionLimit), location });
            }
            match try_unify_within(a_constructor, b_constructor, bindings, location, cache, fuel - 1) {
                Err(message) => {
                    return Err(message);
                },
                Ok(()) => {},
            }
            unify_all_within(a_args, b_args, bindings, location, cache, fuel - 1)
        },
        (Type::Ref(a_lifetime), Type::Ref(_)) => {
            try_unify_type_variable_within(*a_lifetime, t1, t2, bindings, location, cache, fuel)
        },
        _ => Err(ErrorMessage { error: UnificationError::TypeMismatch(t1.clone(), t2.clone()), location }),
    }
}

fn try_unify_type_variable_within(
    id: TypeVariableId,
    a: &Type,
    b: &Type,
    bindings: &mut UnificationBindings,
    location: Location,
    cache: &ModuleCache,
    fuel: u32,
) -> (result: Result<(), ErrorMessage>)
    ensures
        ({
            let (outcome, pending) = unify_variable(id, a@, b@, old(bindings)@, cache.store(), fuel as nat);
            final(bindings)@ == pending && reports(result, outcome, location)
        }),
    decreases fuel, 0nat,
{
    match find_binding(id, bindings, cache) {
        Err(fault) => Err(ErrorMessage { error: UnificationError::Internal(fault), location }),
        Ok(TypeBinding::Bound(bound)) => {
            if fuel == 0 {
                Err(ErrorMessage { error: UnificationError::Internal(Fault::RecursionLimit), location })
            } else {
                try_unify_within(&bound, b, bindings, location, cache, fuel - 1)
            }
        },
        Ok(TypeBinding::Unbound(a_level, _)) => {
            let target = match follow_bindings_within(b, bindings, cache, fuel) {
                Err(fault) => {
                    return Err(ErrorMessage { error: UnificationError::Internal(fault), location });
                },
                Ok(target) => target,
            };
            if a.eq(&target) {
                return Ok(());
            }
            let found = match occurs(id, a_level, &target, bindings, cache, fuel) {
                Err(fault) => {
                    return Err(ErrorMessage { error: UnificationError::Internal(fault), location });
                },
                Ok(found) => found,
            };
            if found.occurs {
                Err(ErrorMessage { error: UnificationError::RecursiveType(a.clone(), target), location })
            } else {
                let mut found = found;
                proof {
                    lemma_bindings_model_insert(bindings.bindings@, id, target);
                }
                bindings.level_bindings.append(&mut found.level_bindings);
                bindings.bindings.insert(id, target);
                Ok(())
            }
        },
    }
}

/// The table of bindings after each variable with a binding in `bindings` has been bound
/// to it.
pub open spec fn bind_all(store: Seq<Binding>, bindings: Map<TypeVariableId, Term>) -> Seq<Binding> {
    Seq::new(
        store.len(),
        |i: int|
            if bindings.contains_key(i as usize) {
                Binding::Bound(bindings[i as usize])
            } else {
                store[i]
            },
    )
}

/// Is `id` among the first `n` of `keys`?
pub open spec fn visited(keys: Seq<&TypeVariableId>, n: int, id: int) -> bool {
    exists|j: int| 0 <= j < n && #[trigger] *keys[j] == id
}

/// Is `now` the table `before` with the bindings of the first `n` of `keys` made?
pub open spec fn bound_so_far(
    now: Seq<Binding>,
    before: Seq<Binding>,
    model: Map<TypeVariableId, Term>,
    keys: Seq<&TypeVariableId>,
    n: int,
) -> bool {
    &&& now.len() == before.len()
    &&& forall|i: int|
        0 <= i < before.len() ==> now[i] == (if visited(keys, n, i) {
            Binding::Bound(model[i as usize])
        } else {
            before[i]
        })
}

/// Binding the next key keeps the table in step with the keys visited.
proof fn lemma_visit(
    earlier: Seq<Binding>,
    now: Seq<Binding>,
    before: Seq<Binding>,
    model: Map<TypeVariableId, Term>,
    keys: Seq<&TypeVariableId>,
    n: int,
    id: TypeVariableId,
)
    requires
        bound_so_far(earlier, before, model, keys, n),
        0 <= n < keys.len(),
        *keys[n] == id,
        id < before.len(),
        now == earlier.update(id as int, Binding::Bound(model[id])),
    ensures
        bound_so_far(now, before, model, keys, n + 1),
{
    assert forall|i: int| 0 <= i < before.len() implies now[i] == (if visited(keys, n + 1, i) {
        Binding::Bound(model[i as usize])
    } else {
        before[i]
    }) by {
        if i == id {
            assert(*keys[n] == i);
        } else {
            if visited(keys, n, i) {
                let j = choose|j: int| 0 <= j < n && #[trigger] *keys[j] == i;
                assert(0 <= j < n + 1 && *keys[j] == i);
            }
            if visited(keys, n + 1, i) {
                let j = choose|j: int| 0 <= j < n + 1 && #[trigger] *keys[j] == i;
                assert(j != n);
                assert(0 <= j < n && *keys[j] == i);
            }
        }
    }
}

/// Once every key has been visited, the table holds every binding.
proof fn lemma_all_visited(
    now: Seq<Binding>,
    before: Seq<Binding>,
    bindings: Map<TypeVariableId, Type>,
    keys: Seq<&TypeVariableId>,
)
    requires
        before.len() <= usize::MAX,
        keys.unref().to_set() == bindings.dom(),
        bound_so_far(now, before, bindings_model(bindings), keys, keys.len() as int),
    ensures
        now == bind_all(before, bindings_model(bindings)),
{
    let model = bindings_model(bindings);
    assert forall|i: int| 0 <= i < before.len() implies (visited(keys, keys.len() as int, i)
        <==> model.contains_key(i as usize)) by {
        if visited(keys, keys.len() as int, i) {
            let j = choose|j: int| 0 <= j < keys.len() && #[trigger] *keys[j] == i;
            assert(keys.unref()[j] == i as usize);
            assert(keys.unref().to_set().contains(i as usize));
        }
        if model.contains_key(i as usize) {
            assert(keys.unref().to_set().contains(i as usize));
            let j = choose|j: int| 0 <= j < keys.unref().len() && keys.unref()[j] == i as usize;
            assert(*keys[j] == i);
        }
    }
    assert(now =~= bind_all(before, model));
}

/// Remember all the given type bindings in the cache, binding each of the variables for
/// good.
pub fn perform_type_bindings(bindings: &TypeBindings, cache: &mut ModuleCache)
    requires
        forall|id: TypeVariableId| bindings@.contains_key(id) ==> id < old(cache).store().len(),
    ensures
        final(cache).store() == bind_all(old(cache).store(), bindings_model(bindings@)),
        final(cache).same_but_bindings(old(cache)),
{
    let ghost before = cache.store();
    let ghost model = bindings_model(bindings@);
    assert(before.len() == cache.type_bindings.len());
    proof {
        assert forall|keys: Seq<&TypeVariableId>|
            keys.unref().to_set() == bindings@.dom() && #[trigger] bound_so_far(
                before,
                before,
                model,
                keys,
                keys.len() as int,
            ) implies before == bind_all(before, model) by {
            lemma_all_visited(before, before, bindings@, keys);
        }
    }
    for id in keys: bindings.keys()
        invariant
            before == old(cache).store(),
            model == bindings_model(bindings@),
            cache.same_but_bindings(old(cache)),
            keys.seq().unref().to_set() == bindings@.dom(),
            before.len() <= usize::MAX,
            forall|id: TypeVariableId| bindings@.contains_key(id) ==> id < before.len(),
            bound_so_far(cache.store(), before, model, keys.seq(), keys.index()),
            keys.index() == keys.seq().len() ==> cache.store() == bind_all(before, model),
    {
        let ghost n = keys.index();
        let ghost earlier = cache.store();
        assert(keys.seq().unref()[n] == *id);
        assert(keys.seq().unref().to_set().contains(*id));
        let binding = bindings.get(id).unwrap();
        cache.type_bindings[*id] = TypeBinding::Bound(binding.clone());
        proof {
            let now = cache.store();
            assert(now =~= earlier.update(*id as int, Binding::Bound(model[*id])));
            assert forall|ks: Seq<&TypeVariableId>|
                0 <= n < ks.len() && *ks[n] == *id && #[trigger] bound_so_far(
                    earlier,
                    before,
                    model,
                    ks,
                    n,
                ) implies bound_so_far(now, before, model, ks, n + 1) by {
                lemma_visit(earlier, now, before, model, ks, n, *id);
            }
            assert forall|ks: Seq<&TypeVariableId>|
                ks.unref().to_set() == bindings@.dom() && #[trigger] bound_so_far(
                    now,
                    before,
                    model,
                    ks,
                    ks.len() as int,
                ) implies now == bind_all(before, model) by {
                lemma_all_visited(now, before, bindings@, ks);
            }
        }
    }
}

/// The table after the level of the variable `id` has been lowered to `level`, if it was
/// above. The level of a bound variable stays as it is.
pub open spec fn lower_level(store: Seq<Binding>, id: TypeVariableId, level: LetBindingLevel) -> Seq<Binding> {
    if id < store.len() {
        match store[id as int] {
            Binding::Bound(_) => store,
            Binding::Unbound(original, kind) => store.update(
                id as int,
                Binding::Unbound(
                    if level.0 <= original.0 {
                        level
                    } else {
                        original
                    },
                    kind,
                ),
            ),
        }
    } else {
        store
    }
}

/// The table after each of the levels has been lowered in turn.
pub open spec fn lower_levels(
    store: Seq<Binding>,
    levels: Seq<(TypeVariableId, LetBindingLevel)>,
) -> Seq<Binding>
    decreases levels.len(),
{
    if levels.len() == 0 {
        store
    } else {
        lower_level(lower_levels(store, levels.drop_last()), levels.last().0, levels.last().1)
    }
}

/// The table after the pending bindings have been committed: the variables bound, then
/// the levels lowered.
pub open spec fn commit(store: Seq<Binding>, p: Pending) -> Seq<Binding> {
    lower_levels(bind_all(store, p.bindings), p.level_bindings)
}

/// Lowering levels keeps the number of variables.
pub proof fn lemma_lower_levels_len(store: Seq<Binding>, levels: Seq<(TypeVariableId, LetBindingLevel)>)
    ensures
        lower_levels(store, levels).len() == store.len(),
    decreases levels.len(),
{
    if levels.len() > 0 {
        lemma_lower_levels_len(store, levels.drop_last());
    }
}

impl UnificationBindings {
    /// Commits these bindings to the cache: binds each variable that has a binding here,
    /// then lowers the level of each variable named in the level bindings that is still
    /// unbound.
    pub fn perform(self, cache: &mut ModuleCache)
        requires
            forall|id: TypeVariableId| self.bindings@.contains_key(id) ==> id < old(cache).store().len(),
            forall|i: int|
                0 <= i < self.level_bindings@.len() ==> (#[trigger] self.level_bindings@[i]).0 < old(cache).store().len(),
        ensures
            final(cache).store() == commit(old(cache).store(), self@),
            final(cache).same_but_bindings(old(cache)),
    {
        perform_type_bindings(&self.bindings, cache);
        let ghost bound = cache.store();
        let ghost levels = self.level_bindings@;
        let mut i: usize = 0;
        while i < self.level_bindings.len()
            invariant
                i <= self.level_bindings.len(),
                levels == self.level_bindings@,
                cache.same_but_bindings(old(cache)),
                cache.store().len() == bound.len(),
                forall|j: int| 0 <= j < levels.len() ==> (#[trigger] levels[j]).0 < bound.len(),
                cache.store() == lower_levels(bound, levels.take(i as int)),
            decreases self.level_bindings.len() - i,
        {
            let (id, level) = self.level_bindings[i];
            proof {
                assert(levels.take(i + 1).drop_last() =~= levels.take(i as int));
                assert(levels.take(i + 1).last() == levels[i as int]);
            }
            let ghost earlier = cache.store();
            match &cache.type_bindings[id] {
                TypeBinding::Bound(_) => {},
                TypeBinding::Unbound(original_level, kind) => {
                    let min_level = if level.0 <= original_level.0 {
                        level
                    } else {
                        *original_level
                    };
                    let lowered = TypeBinding::Unbound(min_level, *kind);
                    cache.type_bindings[id] = lowered;
                    assert(cache.store() =~= lower_level(earlier, id, level));
                },
            }
            i += 1;
        }
        assert(levels.take(i as int) =~= levels);
    }

    /// Adds the bindings of `other` to these. Where both bind a variable, the binding of
    /// `other` stands.
    pub fn extend(&mut self, other: UnificationBindings)
        ensures
            final(self)@.bindings == old(self)@.bindings.union_prefer_right(other@.bindings),
            final(self)@.level_bindings == old(self)@.level_bindings + other@.level_bindings,
    {
        let ghost levels = old(self).level_bindings@ + other.level_bindings@;
        let mut rest = other;
        self.level_bindings.append(&mut rest.level_bindings);
        let ghost before = self.bindings@;
        let ghost added = rest.bindings@;
        proof {
            assert forall|keys: Seq<&TypeVariableId>|
                keys.unref().to_set() == added.dom() && #[trigger] merged_so_far(
                    before,
                    before,
                    added,
                    keys,
                    keys.len() as int,
                ) implies bindings_model(before) == bindings_model(before).union_prefer_right(
                bindings_model(added),
            ) by {
                lemma_all_merged(before, before, added, keys);
            }
        }
        for id in keys: rest.bindings.keys()
            invariant
                before == old(self).bindings@,
                added == rest.bindings@,
                added == other.bindings@,
                self.level_bindings@ == levels,
                keys.seq().unref().to_set() == added.dom(),
                merged_so_far(self.bindings@, before, added, keys.seq(), keys.index()),
                keys.index() == keys.seq().len() ==> bindings_model(self.bindings@) == bindings_model(
                    before,
                ).union_prefer_right(bindings_model(added)),
        {
            let ghost n = keys.index();
            let ghost earlier = self.bindings@;
            assert(keys.seq().unref()[n] == *id);
            assert(keys.seq().unref().to_set().contains(*id));
            let binding = rest.bindings.get(id).unwrap().clone();
            let ghost inserted = binding;
            self.bindings.insert(*id, binding);
            proof {
                let now = self.bindings@;
                assert forall|ks: Seq<&TypeVariableId>|
                    0 <= n < ks.len() && *ks[n] == *id && #[trigger] merged_so_far(
                        earlier,
                        before,
                        added,
                        ks,
                        n,
                    ) implies merged_so_far(now, before, added, ks, n + 1) by {
                    lemma_merge(earlier, now, before, added, ks, n, *id, inserted);
                }
                assert forall|ks: Seq<&TypeVariableId>|
                    ks.unref().to_set() == added.dom() && #[trigger] merged_so_far(
                        now,
                        before,
                        added,
                        ks,
                        ks.len() as int,
                    ) implies bindings_model(now) == bindings_model(before).union_prefer_right(
                    bindings_model(added),
                ) by {
                    lemma_all_merged(now, before, added, ks);
                }
            }
        }
    }
}

/// Does `now` hold the bindings of `before`, overridden by those that `added` has for the
/// first `n` of `keys`?
pub open spec fn merged_so_far(
    now: Map<TypeVariableId, Type>,
    before: Map<TypeVariableId, Type>,
    added: Map<TypeVariableId, Type>,
    keys: Seq<&TypeVariableId>,
    n: int,
) -> bool {
    forall|id: TypeVariableId|
        (#[trigger] now.contains_key(id) <==> (before.contains_key(id) || visited(keys, n, id as int)))
            && (now.contains_key(id) ==> now[id]@ == (if visited(keys, n, id as int) {
            added[id]@
        } else {
            before[id]@
        }))
}

proof fn lemma_merge(
    earlier: Map<TypeVariableId, Type>,
    now: Map<TypeVariableId, Type>,
    before: Map<TypeVariableId, Type>,
    added: Map<TypeVariableId, Type>,
    keys: Seq<&TypeVariableId>,
    n: int,
    id: TypeVariableId,
    binding: Type,
)
    requires
        merged_so_far(earlier, before, added, keys, n),
        0 <= n < keys.len(),
        *keys[n] == id,
        binding@ == added[id]@,
        now == earlier.insert(id, binding),
    ensures
        merged_so_far(now, before, added, keys, n + 1),
{
    assert forall|k: TypeVariableId|
        (#[trigger] now.contains_key(k) <==> (before.contains_key(k) || visited(keys, n + 1, k as int)))
            && (now.contains_key(k) ==> now[k]@ == (if visited(keys, n + 1, k as int) {
            added[k]@
        } else {
            before[k]@
        })) by {
        assert(earlier.contains_key(k) <==> (before.contains_key(k) || visited(keys, n, k as int)));
        if k == id {
            assert(*keys[n] == k as int);
        } else {
            if visited(keys, n, k as int) {
                let j = choose|j: int| 0 <= j < n && #[trigger] *keys[j] == k as int;
                assert(0 <= j < n + 1 && *keys[j] == k as int);
            }
            if visited(keys, n + 1, k as int) {
                let j = choose|j: int| 0 <= j < n + 1 && #[trigger] *keys[j] == k as int;
                assert(j != n);
                assert(0 <= j < n && *keys[j] == k as int);
            }
        }
    }
}

proof fn lemma_all_merged(
    now: Map<TypeVariableId, Type>,
    before: Map<TypeVariableId, Type>,
    added: Map<TypeVariableId, Type>,
    keys: Seq<&TypeVariableId>,
)
    requires
        keys.unref().to_set() == added.dom(),
        merged_so_far(now, before, added, keys, keys.len() as int),
    ensures
        bindings_model(now) == bindings_model(before).union_prefer_right(bindings_model(added)),
{
    assert forall|k: TypeVariableId| visited(keys, keys.len() as int, k as int) <==> added.contains_key(
        k,
    ) by {
        if visited(keys, keys.len() as int, k as int) {
            let j = choose|j: int| 0 <= j < keys.len() && #[trigger] *keys[j] == k as int;
            assert(keys.unref()[j] == k);
            assert(keys.unref().to_set().contains(k));
        }
        if added.contains_key(k) {
            assert(keys.unref().to_set().contains(k));
            let j = choose|j: int| 0 <= j < keys.unref().len() && keys.unref()[j] == k;
            assert(*keys[j] == k as int);
        }
    }
    let merged = bindings_model(before).union_prefer_right(bindings_model(added));
    assert forall|k: TypeVariableId| #[trigger]
        bindings_model(now).contains_key(k) <==> merged.contains_key(k) by {
        assert(now.contains_key(k) <==> (before.contains_key(k) || visited(keys, keys.len() as int, k as int)));
    }
    assert forall|k: TypeVariableId| #[trigger]
        bindings_model(now).contains_key(k) implies bindings_model(now)[k] == merged[k] by {
        assert(now.contains_key(k) <==> (before.contains_key(k) || visited(keys, keys.len() as int, k as int)));
    }
    assert(bindings_model(now) =~= merged);
}

/// Try to unify the two given types, on top of the given bindings. No variable is bound in
/// the cache: the bindings found are added to `bindings`, and it is for the caller to commit
/// them or not. On failure `bindings` holds what was found before the failure.
pub fn try_unify_with_bindings(
    t1: &Type,
    t2: &Type,
    bindings: &mut UnificationBindings,
    location: Location,
    cache: &ModuleCache,
) -> (result: Result<(), ErrorMessage>)
    ensures
        ({
            let (outcome, pending) = unify_terms(
                t1@,
                t2@,
                old(bindings)@,
                cache.store(),
                RECURSION_LIMIT as nat,
            );
            final(bindings)@ == pending && reports(result, outcome, location)
        }),
{
    try_unify_within(t1, t2, bindings, location, cache, RECURSION_LIMIT)
}

/// The bindings under which the two types are the same, or why there are none.
pub fn try_unify(t1: &Type, t2: &Type, location: Location, cache: &ModuleCache) -> (result: Result<
    UnificationBindings,
    ErrorMessage,
>)
    ensures
        ({
            let nothing = Pending { bindings: Map::empty(), level_bindings: Seq::empty() };
            let (outcome, pending) = unify_terms(t1@, t2@, nothing, cache.store(), RECURSION_LIMIT as nat);
            match result {
                Ok(bindings) => outcome is Ok && bindings@ == pending,
                Err(message) => outcome == Err::<(), Mismatch>(message.error@) && message.location
                    == location,
            }
        }),
{
    let mut bindings = UnificationBindings::empty();
    match try_unify_with_bindings(t1, t2, &mut bindings, location, cache) {
        Ok(()) => Ok(bindings),
        Err(message) => Err(message),
    }
}

/// The outcome of unifying two lists of the same length position by position.
pub open spec fn unify_lists(
    types1: Seq<Term>,
    types2: Seq<Term>,
    p: Pending,
    store: Seq<Binding>,
    fuel: nat,
) -> (Result<(), Mismatch>, Pending) {
    if types1.len() != types2.len() {
        (Err(Mismatch::LengthMismatch(types1, types2)), p)
    } else {
        unify_all(types1, types2, p, store, fuel)
    }
}

/// Try to unify all the given types pairwise, on top of the given bindings, and return the
/// bindings with those found added.
pub fn try_unify_all_with_bindings(
    vec1: &Vec<Type>,
    vec2: &Vec<Type>,
    bindings: UnificationBindings,
    location: Location,
    cache: &ModuleCache,
) -> (result: Result<UnificationBindings, ErrorMessage>)
    ensures
        ({
            let (outcome, pending) = unify_lists(
                crate::types::terms_of(vec1@),
                crate::types::terms_of(vec2@),
                bindings@,
                cache.store(),
                RECURSION_LIMIT as nat,
            );
            match result {
                Ok(found) => outcome is Ok && found@ == pending,
                Err(message) => outcome == Err::<(), Mismatch>(message.error@) && message.location
                    == location,
            }
        }),
{
    if vec1.len() != vec2.len() {
        return Err(
            ErrorMessage {
                error: UnificationError::LengthMismatch(
                    crate::types::clone_types(vec1),
                    crate::types::clone_types(vec2),
                ),
                location,
            },
        );
    }
    let mut bindings = bindings;
    match unify_all_within(vec1, vec2, &mut bindings, location, cache, RECURSION_LIMIT) {
        Ok(()) => Ok(bindings),
        Err(message) => Err(message),
    }
}

/// Unifies the two given types and commits the bindings found to the cache. If they do
/// not unify, the cache's bindings stay as they are and the failure is added to its
/// diagnostics.
pub fn unify(t1: &Type, t2: &Type, location: Location, cache: &mut ModuleCache)
    ensures
        ({
            let nothing = Pending { bindings: Map::empty(), level_bindings: Seq::empty() };
            let (outcome, pending) = unify_terms(
                t1@,
                t2@,
                nothing,
                old(cache).store(),
                RECURSION_LIMIT as nat,
            );
            match outcome {
                Ok(()) => final(cache).store() == commit(old(cache).store(), pending) && final(cache).diagnostics == old(cache).diagnostics,
                Err(mismatch) => final(cache).store() == old(cache).store() && final(cache).diagnostics@.len() == old(cache).diagnostics@.len() + 1 && final(cache).diagnostics@.last()@ == (mismatch, location) && final(cache).diagnostics@.drop_last()
                    == old(cache).diagnostics@,
            }
        }),
        final(cache).current_level == old(cache).current_level,
        final(cache).current_trait_constraint_id == old(cache).current_trait_constraint_id,
        final(cache).same_infos(old(cache)),
{
    match try_unify(t1, t2, location, cache) {
        Ok(bindings) => {
            proof {
                let nothing = Pending { bindings: Map::empty(), level_bindings: Seq::empty() };
                crate::extension::lemma_unify_extends(
                    t1@,
                    t2@,
                    nothing,
                    cache.store(),
                    RECURSION_LIMIT as nat,
                );
                assert forall|id: TypeVariableId| bindings.bindings@.contains_key(id) implies id
                    < cache.store().len() by {
                    assert(bindings@.bindings.contains_key(id));
                }
            }
            bindings.perform(cache)
        },
        Err(message) => {
            cache.diagnostics.push(message);
            assert(cache.diagnostics@.drop_last() =~= old(cache).diagnostics@);
        },
    }
}

/// Following bindings is idempotent: the end of a chain of bindings is its own end.
pub proof fn lemma_follow_idempotent(t: Term, pending: Map<TypeVariableId, Term>, store: Seq<Binding>, fuel: nat, again: nat)
    requires
        follow(t, pending, store, fuel) is Ok,
    ensures
        follow(follow(t, pending, store, fuel)->Ok_0, pending, store, again) == follow(t, pending, store, fuel),
    decreases fuel,
{
    match t {
        Term::TypeVariable(id) => {
            if let Some(Binding::Bound(next)) = find(id, pending, store) {
                lemma_follow_idempotent(next, pending, store, (fuel - 1) as nat, again);
            }
        },
        Term::Ref(id) => {
            if let Some(Binding::Bound(next)) = find(id, pending, store) {
                lemma_follow_idempotent(next, pending, store, (fuel - 1) as nat, again);
            }
        },
        _ => {},
    }
}

} // verus!
