//! Static dispatch: which impl each use of a trait member stands for.
//!
//! An obligation that arose directly at an occurrence of a variable is met by a member of
//! the impl chosen for it. One that a definition passes on to its users is met anew at each
//! use of the definition, by the impl chosen there. The four tables of a scope are pushed
//! and popped together, one scope for each definition being lowered.
use vstd::prelude::*;
use crate::cache::ModuleCache;
use crate::context::Context;
use crate::error::Fault;
use crate::traits::{Callsite, RequiredImpl, RequiredTrait};
use crate::types::{DefinitionInfoId, ImplInfoId, TraitConstraintId, VariableId};

verus! {

/// The value of the last among the first `n` entries that has the key.
pub open spec fn last_with<K, V>(entries: Seq<(K, V)>, n: nat, key: K) -> Option<V>
    decreases n,
{
    if n == 0 || n > entries.len() {
        None
    } else if entries[n - 1].0 == key {
        Some(entries[n - 1].1)
    } else {
        last_with(entries, (n - 1) as nat, key)
    }
}

/// The values of the entries among the first `n` that have the key, in order.
pub open spec fn all_with<K, V>(entries: Seq<(K, V)>, n: nat, key: K) -> Seq<V>
    decreases n,
{
    if n == 0 || n > entries.len() {
        Seq::empty()
    } else if entries[n - 1].0 == key {
        all_with(entries, (n - 1) as nat, key).push(entries[n - 1].1)
    } else {
        all_with(entries, (n - 1) as nat, key)
    }
}

/// One scope of impls.
pub struct Scope {
    pub direct: Seq<(VariableId, DefinitionInfoId)>,
    pub indirect: Seq<((VariableId, TraitConstraintId), ImplInfoId)>,
    pub direct_given: Seq<(VariableId, (TraitConstraintId, ImplInfoId))>,
    pub indirect_given: Seq<(TraitConstraintId, (VariableId, TraitConstraintId, ImplInfoId))>,
}

/// The member of the impl that the occurrence of a variable stands for: the first of the
/// definitions of the impl, among those from position `from` on, with the name of the
/// variable.
pub open spec fn method_in_impl(cache: ModuleCache, callsite: VariableId, binding: ImplInfoId, from: nat) -> Result<
    DefinitionInfoId,
    Fault,
>
    decreases
        (if binding.0 < cache.impl_infos@.len() {
            cache.impl_infos@[binding.0 as int].definitions@.len() - from
        } else {
            0
        }),
{
    if callsite.0 >= cache.variable_infos@.len() {
        Err(Fault::UnknownDefinition(callsite.0))
    } else if binding.0 >= cache.impl_infos@.len() {
        Err(Fault::UnknownDefinition(binding.0))
    } else {
        let definitions = cache.impl_infos@[binding.0 as int].definitions@;
        if from >= definitions.len() {
            Err(Fault::Malformed)
        } else {
            let definition = definitions[from as int];
            if definition.0 >= cache.definition_infos@.len() {
                Err(Fault::UnknownDefinition(definition.0))
            } else if cache.definition_infos@[definition.0 as int].name@ == cache.variable_infos@[callsite.0 as int].name@ {
                Ok(definition)
            } else {
                method_in_impl(cache, callsite, binding, from + 1)
            }
        }
    }
}

impl ModuleCache {
    /// The definition in the impl that the occurrence of a trait member stands for: the
    /// member of the impl with the name of the variable.
    pub fn find_method_in_impl(&self, callsite: VariableId, binding: ImplInfoId) -> (result: Result<
        DefinitionInfoId,
        Fault,
    >)
        ensures
            result == method_in_impl(*self, callsite, binding, 0),
    {
        if callsite.0 >= self.variable_infos.len() {
            return Err(Fault::UnknownDefinition(callsite.0));
        }
        if binding.0 >= self.impl_infos.len() {
            return Err(Fault::UnknownDefinition(binding.0));
        }
        let definitions = &self.impl_infos[binding.0].definitions;
        let mut i: usize = 0;
        while i < definitions.len()
            invariant
                i <= definitions.len(),
                callsite.0 < self.variable_infos@.len(),
                binding.0 < self.impl_infos@.len(),
                definitions == &self.impl_infos@[binding.0 as int].definitions,
                method_in_impl(*self, callsite, binding, 0) == method_in_impl(*self, callsite, binding, i as nat),
            decreases definitions.len() - i,
        {
            let definition = definitions[i];
            if definition.0 >= self.definition_infos.len() {
                return Err(Fault::UnknownDefinition(definition.0));
            }
            if self.definition_infos[definition.0].name == self.variable_infos[callsite.0].name {
                return Ok(definition);
            }
            i += 1;
        }
        Err(Fault::Malformed)
    }
}

/// The impls that `given` clauses supply for the occurrence `from`, entered as impls for
/// obligations passed on at `from`: the first `n` entries are looked at.
pub open spec fn promoted(
    indirect: Seq<((VariableId, TraitConstraintId), ImplInfoId)>,
    direct_given: Seq<(VariableId, (TraitConstraintId, ImplInfoId))>,
    n: nat,
    from: VariableId,
) -> Seq<((VariableId, TraitConstraintId), ImplInfoId)>
    decreases n,
{
    if n == 0 || n > direct_given.len() {
        indirect
    } else {
        let before = promoted(indirect, direct_given, (n - 1) as nat, from);
        let (callsite, (constraint, found)) = direct_given[n - 1];
        if callsite == from {
            before.push(((from, constraint), found))
        } else {
            before
        }
    }
}

/// The scope with one more impl entered, which was chosen for an obligation at the
/// occurrence `from` or inside the definition used there.
pub open spec fn with_impl(scope: Scope, callsite: Callsite, binding: ImplInfoId, from: VariableId, cache: ModuleCache) -> Result<
    Scope,
    Fault,
> {
    match callsite {
        Callsite::Direct(at) => match method_in_impl(cache, at, binding, 0) {
            Err(fault) => Err(fault),
            Ok(method) => Ok(Scope { direct: scope.direct.push((at, method)), ..scope }),
        },
        Callsite::Indirect(at, id) => Ok(Scope { indirect: scope.indirect.push(((at, id), binding)), ..scope }),
        Callsite::GivenDirect(at, origin) => if at == from {
            Ok(Scope { indirect: scope.indirect.push(((at, origin), binding)), ..scope })
        } else {
            Ok(Scope { direct_given: scope.direct_given.push((at, (origin, binding))), ..scope })
        },
        Callsite::GivenIndirect(at, key, origin) => Ok(
            Scope { indirect_given: scope.indirect_given.push((key, (at, origin, binding))), ..scope },
        ),
    }
}

/// The scope with the first `n` of the impls entered in turn.
pub open spec fn with_impls(scope: Scope, impls: Seq<RequiredImpl>, n: nat, from: VariableId, cache: ModuleCache) -> Result<
    Scope,
    Fault,
>
    decreases n,
{
    if n == 0 || n > impls.len() {
        Ok(scope)
    } else {
        match with_impls(scope, impls, (n - 1) as nat, from, cache) {
            Err(fault) => Err(fault),
            Ok(before) => with_impl(before, impls[n - 1].callsite, impls[n - 1].binding, from, cache),
        }
    }
}

/// The scope after the impls chosen at the occurrence `from` were entered: first what
/// `given` clauses supply for `from`, then each of the impls.
pub open spec fn with_required_impls(scope: Scope, impls: Seq<RequiredImpl>, from: VariableId, cache: ModuleCache) -> Result<
    Scope,
    Fault,
> {
    with_impls(
        Scope {
            indirect: promoted(scope.indirect, scope.direct_given, scope.direct_given.len(), from),
            ..scope
        },
        impls,
        impls.len(),
        from,
        cache,
    )
}

impl Context {
    /// Is there a scope of impls, and as many of each of the four tables?
    pub open spec fn scoped(&self) -> bool {
        &&& self.direct_impl_mappings@.len() > 0
        &&& self.indirect_impl_mappings@.len() == self.direct_impl_mappings@.len()
        &&& self.direct_given_impl_mappings@.len() == self.direct_impl_mappings@.len()
        &&& self.indirect_given_impl_mappings@.len() == self.direct_impl_mappings@.len()
    }

    /// The innermost scope of impls.
    pub open spec fn scope(&self) -> Scope {
        Scope {
            direct: self.direct_impl_mappings@.last()@,
            indirect: self.indirect_impl_mappings@.last()@,
            direct_given: self.direct_given_impl_mappings@.last()@,
            indirect_given: self.indirect_given_impl_mappings@.last()@,
        }
    }

    /// Do the two contexts differ at most in the innermost scope of impls?
    pub open spec fn same_but_scope(&self, other: &Context) -> bool {
        &&& self.monomorphisation_bindings == other.monomorphisation_bindings
        &&& self.cache == other.cache
        &&& self.definitions == other.definitions
        &&& self.types == other.types
        &&& self.next_id == other.next_id
        &&& self.scoped() == other.scoped()
        &&& self.direct_impl_mappings@.drop_last() == other.direct_impl_mappings@.drop_last()
        &&& self.indirect_impl_mappings@.drop_last() == other.indirect_impl_mappings@.drop_last()
        &&& self.direct_given_impl_mappings@.drop_last() == other.direct_given_impl_mappings@.drop_last()
        &&& self.indirect_given_impl_mappings@.drop_last() == other.indirect_given_impl_mappings@.drop_last()
    }

    /// Enters, in the innermost scope, the impls that were chosen for the obligations that
    /// arose at the occurrence `from` of a variable.
    pub fn add_required_impls(&mut self, from: VariableId) -> (result: Result<(), Fault>)
        requires
            old(self).scoped(),
            from.0 < old(self).cache.variable_infos@.len(),
        ensures
            final(self).same_but_scope(old(self)),
            final(self).depth() == old(self).depth(),
            match with_required_impls(
                old(self).scope(),
                old(self).cache.variable_infos@[from.0 as int].required_impls@,
                from,
                old(self).cache,
            ) {
                Ok(scope) => result is Ok && final(self).scope() == scope,
                Err(fault) => result == Err::<(), Fault>(fault),
            },
    {
        let ghost required_impls = self.cache.variable_infos@[from.0 as int].required_impls;
        let count = self.cache.variable_infos[from.0].required_impls.len();
        let mut new_direct = self.direct_impl_mappings.pop().unwrap();
        let mut new_indirect = self.indirect_impl_mappings.pop().unwrap();
        let mut new_direct_given = self.direct_given_impl_mappings.pop().unwrap();
        let mut new_indirect_given = self.indirect_given_impl_mappings.pop().unwrap();
        let ghost start = old(self).scope();
        let mut i: usize = 0;
        while i < new_direct_given.len()
            invariant
                i <= new_direct_given.len(),
                new_direct_given@ == start.direct_given,
                new_indirect@ == promoted(start.indirect, start.direct_given, i as nat, from),
            decreases new_direct_given.len() - i,
        {
            let (callsite, (constraint_id, impl_id)) = new_direct_given[i];
            if callsite == from {
                new_indirect.push(((from, constraint_id), impl_id));
            }
            i += 1;
        }
        let ghost first = Scope { indirect: new_indirect@, ..start };
        let mut failed: Option<Fault> = None;
        let mut k: usize = 0;
        while k < count && failed.is_none()
            invariant
                k <= count,
                count == required_impls@.len(),
                from.0 < self.cache.variable_infos@.len(),
                required_impls == self.cache.variable_infos@[from.0 as int].required_impls,
                self.cache == old(self).cache,
                match failed {
                    None => with_impls(first, required_impls@, k as nat, from, self.cache) == Ok::<Scope, Fault>(
                        Scope {
                            direct: new_direct@,
                            indirect: new_indirect@,
                            direct_given: new_direct_given@,
                            indirect_given: new_indirect_given@,
                        },
                    ),
                    Some(fault) => with_impls(first, required_impls@, required_impls@.len(), from, self.cache)
                        == Err::<Scope, Fault>(fault),
                },
            decreases count - k + (if failed.is_none() { 1nat } else { 0nat }),
        {
            let binding = self.cache.variable_infos[from.0].required_impls[k].binding;
            let callsite = self.cache.variable_infos[from.0].required_impls[k].callsite;
            match callsite {
                Callsite::Direct(callsite) => {
                    match self.cache.find_method_in_impl(callsite, binding) {
                        Err(fault) => {
                            proof {
                                lemma_impls_fail(
                                    first,
                                    required_impls@,
                                    (k + 1) as nat,
                                    required_impls@.len(),
                                    from,
                                    self.cache,
                                );
                            }
                            failed = Some(fault);
                        },
                        Ok(method) => {
                            new_direct.push((callsite, method));
                        },
                    }
                },
                Callsite::Indirect(callsite, id) => {
                    new_indirect.push(((callsite, id), binding));
                },
                Callsite::GivenDirect(callsite, origin) => {
                    if callsite == from {
                        new_indirect.push(((callsite, origin), binding));
                    } else {
                        new_direct_given.push((callsite, (origin, binding)));
                    }
                },
                Callsite::GivenIndirect(callsite, key, origin) => {
                    new_indirect_given.push((key, (callsite, origin, binding)));
                },
            }
            if failed.is_none() {
                k += 1;
            }
        }
        self.direct_impl_mappings.push(new_direct);
        self.indirect_impl_mappings.push(new_indirect);
        self.direct_given_impl_mappings.push(new_direct_given);
        self.indirect_given_impl_mappings.push(new_indirect_given);
        proof {
            assert(self.direct_impl_mappings@.drop_last() =~= old(self).direct_impl_mappings@.drop_last());
            assert(self.indirect_impl_mappings@.drop_last() =~= old(self).indirect_impl_mappings@.drop_last());
            assert(self.direct_given_impl_mappings@.drop_last() =~= old(self).direct_given_impl_mappings@.drop_last());
            assert(self.indirect_given_impl_mappings@.drop_last() =~= old(self).indirect_given_impl_mappings@.drop_last());
        }
        match failed {
            Some(fault) => Err(fault),
            None => Ok(()),
        }
    }

    /// The definition that the occurrence `id` of a variable stands for: the member of an
    /// impl where one was chosen for the occurrence, else the definition `definition` that
    /// the name was resolved to.
    pub fn get_definition_id(&self, id: VariableId, definition: DefinitionInfoId) -> (found: DefinitionInfoId)
        requires
            self.scoped(),
        ensures
            found == (match last_with(self.scope().direct, self.scope().direct.len(), id) {
                Some(method) => method,
                None => definition,
            }),
    {
        let direct = &self.direct_impl_mappings[self.direct_impl_mappings.len() - 1];
        let mut i: usize = direct.len();
        while i > 0
            invariant
                i <= direct.len(),
                direct@ == self.scope().direct,
                last_with(direct@, direct@.len(), id) == last_with(direct@, i as nat, id),
            decreases i,
        {
            i -= 1;
            if direct[i].0 == id {
                return direct[i].1;
            }
        }
        definition
    }
}

/// Once entering the first `n` impls fails, so does entering more.
proof fn lemma_impls_fail(scope: Scope, impls: Seq<RequiredImpl>, n: nat, m: nat, from: VariableId, cache: ModuleCache)
    requires
        with_impls(scope, impls, n, from, cache) is Err,
        n <= m <= impls.len(),
    ensures
        with_impls(scope, impls, m, from, cache) == with_impls(scope, impls, n, from, cache),
    decreases m,
{
    if n < m {
        lemma_impls_fail(scope, impls, n, (m - 1) as nat, from, cache);
    }
}

/// Is the impl at the position `k` the last of the first `n` that was chosen for an
/// obligation that arose directly at the occurrence `at`?
pub open spec fn last_direct(impls: Seq<RequiredImpl>, n: nat, k: int, at: VariableId) -> bool {
    &&& 0 <= k < n <= impls.len()
    &&& impls[k].callsite == Callsite::Direct(at)
    &&& forall|j: int| k < j < n ==> (#[trigger] impls[j]).callsite != Callsite::Direct(at)
}

/// Does entering the impl with the callsite enter an impl for the obligation that the
/// definition used at `at` passes on under `id`?
pub open spec fn enters_indirect(callsite: Callsite, from: VariableId, at: VariableId, id: TraitConstraintId) -> bool {
    callsite == Callsite::Indirect(at, id) || (callsite == Callsite::GivenDirect(at, id) && at == from)
}

/// Is the impl at the position `k` the last of the first `n` that was entered for the
/// obligation that the definition used at `at` passes on under `id`?
pub open spec fn last_indirect(
    impls: Seq<RequiredImpl>,
    n: nat,
    k: int,
    from: VariableId,
    at: VariableId,
    id: TraitConstraintId,
) -> bool {
    &&& 0 <= k < n <= impls.len()
    &&& enters_indirect(impls[k].callsite, from, at, id)
    &&& forall|j: int| k < j < n ==> !enters_indirect((#[trigger] impls[j]).callsite, from, at, id)
}

/// What a table holds for a key after an entry was added: the value added, where the entry
/// is for the key, and else what it held before.
pub proof fn lemma_last_with_push<K, V>(entries: Seq<(K, V)>, entry: (K, V), key: K)
    ensures
        last_with(entries.push(entry), entries.len() + 1, key) == if entry.0 == key {
            Some(entry.1)
        } else {
            last_with(entries, entries.len(), key)
        },
{
    lemma_last_with_prefix(entries, entry, entries.len(), key);
    assert(entries.push(entry)[entries.len() as int] == entry);
}

proof fn lemma_last_with_prefix<K, V>(entries: Seq<(K, V)>, entry: (K, V), n: nat, key: K)
    requires
        n <= entries.len(),
    ensures
        last_with(entries.push(entry), n, key) == last_with(entries, n, key),
    decreases n,
{
    if n > 0 {
        assert(entries.push(entry)[n - 1] == entries[n - 1]);
        lemma_last_with_prefix(entries, entry, (n - 1) as nat, key);
    }
}

proof fn lemma_impls_keep_direct(
    scope: Scope,
    impls: Seq<RequiredImpl>,
    n: nat,
    k: int,
    from: VariableId,
    cache: ModuleCache,
    at: VariableId,
)
    requires
        last_direct(impls, n, k, at),
        with_impls(scope, impls, n, from, cache) is Ok,
    ensures
        method_in_impl(cache, at, impls[k].binding, 0) is Ok,
        ({
            let after = with_impls(scope, impls, n, from, cache)->Ok_0;
            last_with(after.direct, after.direct.len(), at) == Some(
                method_in_impl(cache, at, impls[k].binding, 0)->Ok_0,
            )
        }),
    decreases n,
{
    let before = with_impls(scope, impls, (n - 1) as nat, from, cache)->Ok_0;
    let last = impls[n - 1];
    if n > k + 1 {
        assert(last.callsite != Callsite::Direct(at));
        lemma_impls_keep_direct(scope, impls, (n - 1) as nat, k, from, cache, at);
        match last.callsite {
            Callsite::Direct(other) => {
                let method = method_in_impl(cache, other, last.binding, 0)->Ok_0;
                lemma_last_with_push(before.direct, (other, method), at);
            },
            _ => {},
        }
    } else {
        let method = method_in_impl(cache, at, last.binding, 0)->Ok_0;
        lemma_last_with_push(before.direct, (at, method), at);
    }
}

proof fn lemma_impls_keep_indirect(
    scope: Scope,
    impls: Seq<RequiredImpl>,
    n: nat,
    k: int,
    from: VariableId,
    cache: ModuleCache,
    at: VariableId,
    id: TraitConstraintId,
)
    requires
        last_indirect(impls, n, k, from, at, id),
        with_impls(scope, impls, n, from, cache) is Ok,
    ensures
        ({
            let after = with_impls(scope, impls, n, from, cache)->Ok_0;
            last_with(after.indirect, after.indirect.len(), (at, id)) == Some(impls[k].binding)
        }),
    decreases n,
{
    let before = with_impls(scope, impls, (n - 1) as nat, from, cache)->Ok_0;
    let last = impls[n - 1];
    if n > k + 1 {
        assert(!enters_indirect(last.callsite, from, at, id));
        lemma_impls_keep_indirect(scope, impls, (n - 1) as nat, k, from, cache, at, id);
    }
    match last.callsite {
        Callsite::Indirect(other, passed) => {
            lemma_last_with_push(before.indirect, ((other, passed), last.binding), (at, id));
        },
        Callsite::GivenDirect(other, origin) => {
            if other == from {
                lemma_last_with_push(before.indirect, ((other, origin), last.binding), (at, id));
            }
        },
        _ => {},
    }
}

/// Dispatch of a direct occurrence. Where an impl was chosen for an obligation that arose
/// directly at the occurrence `at`, and no impl entered after it was chosen for that
/// occurrence, the occurrence stands for the member of that impl.
pub proof fn lemma_direct_occurrence_resolves(
    scope: Scope,
    impls: Seq<RequiredImpl>,
    from: VariableId,
    cache: ModuleCache,
    k: int,
    at: VariableId,
)
    requires
        last_direct(impls, impls.len(), k, at),
        with_impls(scope, impls, impls.len(), from, cache) is Ok,
    ensures
        ({
            let after = with_impls(scope, impls, impls.len(), from, cache)->Ok_0;
            last_with(after.direct, after.direct.len(), at) == Some(
                method_in_impl(cache, at, impls[k].binding, 0)->Ok_0,
            )
        }),
        method_in_impl(cache, at, impls[k].binding, 0) is Ok,
{
    lemma_impls_keep_direct(scope, impls, impls.len(), k, from, cache, at);
}

/// Dispatch of an indirect occurrence. Where an impl was entered for an obligation that
/// the definition used at `at` passes on under `id`, and no impl entered after it was
/// entered for that obligation, the obligation is met by this impl.
pub proof fn lemma_indirect_occurrence_resolves(
    scope: Scope,
    impls: Seq<RequiredImpl>,
    from: VariableId,
    cache: ModuleCache,
    k: int,
    at: VariableId,
    id: TraitConstraintId,
)
    requires
        last_indirect(impls, impls.len(), k, from, at, id),
        with_impls(scope, impls, impls.len(), from, cache) is Ok,
    ensures
        ({
            let after = with_impls(scope, impls, impls.len(), from, cache)->Ok_0;
            last_with(after.indirect, after.indirect.len(), (at, id)) == Some(impls[k].binding)
        }),
{
    lemma_impls_keep_indirect(scope, impls, impls.len(), k, from, cache, at, id);
}

/// The impls that `given` clauses supply for the obligation `key`, entered in a new scope
/// for the obligation that stands for it there: the first `n` entries are looked at.
pub open spec fn given_forwarded(
    scope: Scope,
    indirect_given: Seq<(TraitConstraintId, (VariableId, TraitConstraintId, ImplInfoId))>,
    n: nat,
    key: TraitConstraintId,
    callsite: Callsite,
) -> Scope
    decreases n,
{
    if n == 0 || n > indirect_given.len() {
        scope
    } else {
        let before = given_forwarded(scope, indirect_given, (n - 1) as nat, key, callsite);
        let (id, given_impl) = indirect_given[n - 1];
        if id == key {
            match callsite {
                Callsite::Direct(at) => Scope {
                    direct_given: before.direct_given.push((at, (given_impl.1, given_impl.2))),
                    ..before
                },
                Callsite::Indirect(_, passed) => Scope {
                    indirect_given: before.indirect_given.push((passed, given_impl)),
                    ..before
                },
                _ => before,
            }
        } else {
            before
        }
    }
}

/// The new scope with what one required trait of the definition brings: the impl that the
/// use at `variable_id` chose for it, entered for the occurrence or the obligation inside
/// the definition that it is for. A trait without members brings nothing.
pub open spec fn with_trait(
    scope: Scope,
    required: RequiredTrait,
    variable_id: VariableId,
    outer: Scope,
    cache: ModuleCache,
) -> Result<Scope, Fault> {
    let trait_id = required.signature.trait_id;
    if trait_id.0 >= cache.trait_infos@.len() {
        Err(Fault::UnknownDefinition(trait_id.0))
    } else if cache.trait_infos@[trait_id.0 as int].definitions@.len() == 0 {
        Ok(scope)
    } else {
        let key = (variable_id, required.signature.id);
        match last_with(outer.indirect, outer.indirect.len(), key) {
            None => Err(Fault::Malformed),
            Some(binding) => {
                let entered = match required.callsite {
                    Callsite::Direct(at) => match method_in_impl(cache, at, binding, 0) {
                        Err(fault) => Err(fault),
                        Ok(method) => Ok(Scope { direct: scope.direct.push((at, method)), ..scope }),
                    },
                    Callsite::Indirect(at, id) => Ok(
                        Scope { indirect: scope.indirect.push(((at, id), binding)), ..scope },
                    ),
                    _ => Err(Fault::Malformed),
                };
                match entered {
                    Err(fault) => Err(fault),
                    Ok(next) => Ok(
                        given_forwarded(
                            next,
                            outer.indirect_given,
                            outer.indirect_given.len(),
                            key.1,
                            required.callsite,
                        ),
                    ),
                }
            },
        }
    }
}

/// Can the required trait be brought into a new scope: is its trait one of the cache, and
/// where the trait has members, is an impl entered in the scope outside for the
/// obligation that the use at `variable_id` passes on for it, and did the obligation arise
/// at an occurrence or was it passed on, not given?
pub open spec fn trait_entered(required: RequiredTrait, variable_id: VariableId, outer: Scope, cache: ModuleCache) -> bool {
    let trait_id = required.signature.trait_id;
    &&& trait_id.0 < cache.trait_infos@.len()
    &&& cache.trait_infos@[trait_id.0 as int].definitions@.len() != 0 ==> {
        &&& last_with(outer.indirect, outer.indirect.len(), (variable_id, required.signature.id)) is Some
        &&& (required.callsite is Direct || required.callsite is Indirect)
    }
}

/// Can each of the first `n` required traits be brought into a new scope?
pub open spec fn traits_entered(
    required: Seq<RequiredTrait>,
    n: nat,
    variable_id: VariableId,
    outer: Scope,
    cache: ModuleCache,
) -> bool {
    forall|i: int| 0 <= i < n && i < required.len() ==> trait_entered(#[trigger] required[i], variable_id, outer, cache)
}

/// The new scope with what the first `n` required traits bring.
pub open spec fn with_traits(
    required: Seq<RequiredTrait>,
    n: nat,
    variable_id: VariableId,
    outer: Scope,
    cache: ModuleCache,
) -> Result<Scope, Fault>
    decreases n,
{
    if n == 0 || n > required.len() {
        Ok(
            Scope {
                direct: Seq::empty(),
                indirect: Seq::empty(),
                direct_given: Seq::empty(),
                indirect_given: Seq::empty(),
            },
        )
    } else {
        match with_traits(required, (n - 1) as nat, variable_id, outer, cache) {
            Err(fault) => Err(fault),
            Ok(before) => with_trait(before, required[n - 1], variable_id, outer, cache),
        }
    }
}

proof fn lemma_traits_fail(
    required: Seq<RequiredTrait>,
    n: nat,
    m: nat,
    variable_id: VariableId,
    outer: Scope,
    cache: ModuleCache,
)
    requires
        n <= m <= required.len(),
    ensures
        with_traits(required, n, variable_id, outer, cache) is Err ==> with_traits(
            required,
            m,
            variable_id,
            outer,
            cache,
        ) == with_traits(required, n, variable_id, outer, cache),
    decreases m,
{
    if n < m {
        lemma_traits_fail(required, n, (m - 1) as nat, variable_id, outer, cache);
    }
}

impl Context {
    /// Do the two contexts differ at most in the scopes of impls?
    pub open spec fn same_but_scopes(&self, other: &Context) -> bool {
        &&& self.monomorphisation_bindings == other.monomorphisation_bindings
        &&& self.cache == other.cache
        &&& self.definitions == other.definitions
        &&& self.types == other.types
        &&& self.next_id == other.next_id
    }

    /// Opens the scope of impls for lowering the definition `definition`, used at the
    /// occurrence `variable_id`: each obligation that the definition passes on to its users
    /// is met by the impl that was chosen for it at this use.
    pub fn add_required_traits(&mut self, definition: DefinitionInfoId, variable_id: VariableId) -> (result:
        Result<(), Fault>)
        requires
            old(self).scoped(),
            definition.0 < old(self).cache.definition_infos@.len(),
            traits_entered(
                old(self).cache.definition_infos@[definition.0 as int].required_traits@,
                old(self).cache.definition_infos@[definition.0 as int].required_traits@.len(),
                variable_id,
                old(self).scope(),
                old(self).cache,
            ),
        ensures
            final(self).same_but_scopes(old(self)),
            match with_traits(
                old(self).cache.definition_infos@[definition.0 as int].required_traits@,
                old(self).cache.definition_infos@[definition.0 as int].required_traits@.len(),
                variable_id,
                old(self).scope(),
                old(self).cache,
            ) {
                Ok(scope) => {
                    &&& result is Ok
                    &&& final(self).scoped()
                    &&& final(self).scope() == scope
                    &&& final(self).direct_impl_mappings@.drop_last() == old(self).direct_impl_mappings@
                    &&& final(self).indirect_impl_mappings@.drop_last() == old(self).indirect_impl_mappings@
                    &&& final(self).direct_given_impl_mappings@.drop_last() == old(self).direct_given_impl_mappings@
                    &&& final(self).indirect_given_impl_mappings@.drop_last() == old(self).indirect_given_impl_mappings@
                },
                Err(fault) => {
                    &&& result == Err::<(), Fault>(fault)
                    &&& final(self).direct_impl_mappings == old(self).direct_impl_mappings
                    &&& final(self).indirect_impl_mappings == old(self).indirect_impl_mappings
                    &&& final(self).direct_given_impl_mappings == old(self).direct_given_impl_mappings
                    &&& final(self).indirect_given_impl_mappings == old(self).indirect_given_impl_mappings
                },
            },
    {
        let mut new_direct: crate::context::DirectImpls = Vec::new();
        let mut new_indirect: crate::context::IndirectImpls = Vec::new();
        let mut new_given_direct: crate::context::DirectGivenImpls = Vec::new();
        let mut new_given_indirect: crate::context::IndirectGivenImpls = Vec::new();
        let ghost outer = self.scope();
        let ghost required = self.cache.definition_infos@[definition.0 as int].required_traits@;
        let count = self.cache.definition_infos[definition.0].required_traits.len();
        let mut i: usize = 0;
        while i < count
            invariant
                i <= count,
                self == old(self),
                self.scoped(),
                definition.0 < self.cache.definition_infos@.len(),
                traits_entered(required, required.len(), variable_id, outer, self.cache),
                outer == self.scope(),
                required == self.cache.definition_infos@[definition.0 as int].required_traits@,
                count == required.len(),
                with_traits(required, i as nat, variable_id, outer, self.cache) == Ok::<Scope, Fault>(
                    Scope {
                        direct: new_direct@,
                        indirect: new_indirect@,
                        direct_given: new_given_direct@,
                        indirect_given: new_given_indirect@,
                    },
                ),
            decreases count - i,
        {
            let required_trait = &self.cache.definition_infos[definition.0].required_traits[i];
            let trait_id = required_trait.signature.trait_id;
            let callsite = required_trait.callsite;
            let constraint = required_trait.signature.id;
            proof {
                lemma_traits_fail(required, (i + 1) as nat, required.len(), variable_id, outer, self.cache);
            }
            assert(trait_entered(required[i as int], variable_id, outer, self.cache));
            // If the trait has no definitions there is nothing to attach an impl to
            if self.cache.trait_infos[trait_id.0].definitions.len() != 0 {
                let binding = match self.find_indirect(variable_id, constraint) {
                    None => {
                        assert(false);
                        return Err(Fault::Malformed);
                    },
                    Some(binding) => binding,
                };
                match callsite {
                    Callsite::Direct(at) => {
                        match self.cache.find_method_in_impl(at, binding) {
                            Err(fault) => {
                                return Err(fault);
                            },
                            Ok(method) => {
                                new_direct.push((at, method));
                            },
                        }
                    },
                    Callsite::Indirect(at, id) => {
                        new_indirect.push(((at, id), binding));
                    },
                    _ => {
                        assert(false);
                        return Err(Fault::Malformed);
                    },
                }
                let given = &self.indirect_given_impl_mappings[self.indirect_given_impl_mappings.len() - 1];
                let ghost next = Scope {
                    direct: new_direct@,
                    indirect: new_indirect@,
                    direct_given: new_given_direct@,
                    indirect_given: new_given_indirect@,
                };
                let mut k: usize = 0;
                while k < given.len()
                    invariant
                        k <= given.len(),
                        given@ == outer.indirect_given,
                        given_forwarded(next, outer.indirect_given, k as nat, constraint, callsite) == (Scope {
                            direct: new_direct@,
                            indirect: new_indirect@,
                            direct_given: new_given_direct@,
                            indirect_given: new_given_indirect@,
                        }),
                    decreases given.len() - k,
                {
                    let (id, given_impl) = given[k];
                    if id == constraint {
                        match callsite {
                            Callsite::Direct(at) => {
                                new_given_direct.push((at, (given_impl.1, given_impl.2)));
                            },
                            Callsite::Indirect(_, passed) => {
                                new_given_indirect.push((passed, given_impl));
                            },
                            _ => {},
                        }
                    }
                    k += 1;
                }
            }
            i += 1;
        }
        self.direct_impl_mappings.push(new_direct);
        self.indirect_impl_mappings.push(new_indirect);
        self.direct_given_impl_mappings.push(new_given_direct);
        self.indirect_given_impl_mappings.push(new_given_indirect);
        proof {
            assert(self.direct_impl_mappings@.drop_last() =~= old(self).direct_impl_mappings@);
            assert(self.indirect_impl_mappings@.drop_last() =~= old(self).indirect_impl_mappings@);
            assert(self.direct_given_impl_mappings@.drop_last() =~= old(self).direct_given_impl_mappings@);
            assert(self.indirect_given_impl_mappings@.drop_last() =~= old(self).indirect_given_impl_mappings@);
        }
        Ok(())
    }

    /// Can each trait that the definition requires be brought into a new scope for the use
    /// at `variable_id`?
    pub fn has_required_traits(&self, definition: DefinitionInfoId, variable_id: VariableId) -> (entered: bool)
        requires
            self.scoped(),
            definition.0 < self.cache.definition_infos@.len(),
        ensures
            entered == traits_entered(
                self.cache.definition_infos@[definition.0 as int].required_traits@,
                self.cache.definition_infos@[definition.0 as int].required_traits@.len(),
                variable_id,
                self.scope(),
                self.cache,
            ),
    {
        let ghost required = self.cache.definition_infos@[definition.0 as int].required_traits@;
        let count = self.cache.definition_infos[definition.0].required_traits.len();
        let mut i: usize = 0;
        while i < count
            invariant
                i <= count,
                self.scoped(),
                definition.0 < self.cache.definition_infos@.len(),
                required == self.cache.definition_infos@[definition.0 as int].required_traits@,
                count == required.len(),
                traits_entered(required, i as nat, variable_id, self.scope(), self.cache),
            decreases count - i,
        {
            let required_trait = &self.cache.definition_infos[definition.0].required_traits[i];
            let trait_id = required_trait.signature.trait_id;
            if trait_id.0 >= self.cache.trait_infos.len() {
                assert(!trait_entered(required[i as int], variable_id, self.scope(), self.cache));
                return false;
            }
            if self.cache.trait_infos[trait_id.0].definitions.len() != 0 {
                let plain = match required_trait.callsite {
                    Callsite::Direct(_) => true,
                    Callsite::Indirect(_, _) => true,
                    _ => false,
                };
                if !plain || self.find_indirect(variable_id, required_trait.signature.id).is_none() {
                    assert(!trait_entered(required[i as int], variable_id, self.scope(), self.cache));
                    return false;
                }
            }
            assert(trait_entered(required[i as int], variable_id, self.scope(), self.cache));
            i += 1;
        }
        true
    }

    /// The impl that the innermost scope holds for the obligation `constraint` passed on
    /// at the occurrence `variable_id`.
    pub fn find_indirect(&self, variable_id: VariableId, constraint: TraitConstraintId) -> (found: Option<
        ImplInfoId,
    >)
        requires
            self.scoped(),
        ensures
            found == last_with(self.scope().indirect, self.scope().indirect.len(), (variable_id, constraint)),
    {
        let indirect = &self.indirect_impl_mappings[self.indirect_impl_mappings.len() - 1];
        let mut i: usize = indirect.len();
        while i > 0
            invariant
                i <= indirect.len(),
                indirect@ == self.scope().indirect,
                last_with(indirect@, indirect@.len(), (variable_id, constraint)) == last_with(
                    indirect@,
                    i as nat,
                    (variable_id, constraint),
                ),
            decreases i,
        {
            i -= 1;
            if indirect[i].0.0 == variable_id && indirect[i].0.1 == constraint {
                return Some(indirect[i].1);
            }
        }
        None
    }

    /// Closes the innermost scope of impls.
    pub fn pop_required_traits(&mut self)
        ensures
            final(self).same_but_scopes(old(self)),
            final(self).direct_impl_mappings@ == crate::mono_state::without_last(old(self).direct_impl_mappings@),
            final(self).indirect_impl_mappings@ == crate::mono_state::without_last(
                old(self).indirect_impl_mappings@,
            ),
            final(self).direct_given_impl_mappings@ == crate::mono_state::without_last(
                old(self).direct_given_impl_mappings@,
            ),
            final(self).indirect_given_impl_mappings@ == crate::mono_state::without_last(
                old(self).indirect_given_impl_mappings@,
            ),
    {
        self.direct_impl_mappings.pop();
        self.indirect_impl_mappings.pop();
        self.direct_given_impl_mappings.pop();
        self.indirect_given_impl_mappings.pop();
    }
}

/// Does the required trait bring an impl for the obligation that is passed on inside the
/// definition at the occurrence `at` under `id`?
pub open spec fn forwards(required: RequiredTrait, cache: ModuleCache, at: VariableId, id: TraitConstraintId) -> bool {
    &&& required.callsite == Callsite::Indirect(at, id)
    &&& required.signature.trait_id.0 < cache.trait_infos@.len()
    &&& cache.trait_infos@[required.signature.trait_id.0 as int].definitions@.len() > 0
}

/// Is the required trait at the position `k` the last of the first `n` that brings an impl
/// for the obligation that is passed on at `at` under `id`?
pub open spec fn last_forwarded(
    required: Seq<RequiredTrait>,
    n: nat,
    k: int,
    cache: ModuleCache,
    at: VariableId,
    id: TraitConstraintId,
) -> bool {
    &&& 0 <= k < n <= required.len()
    &&& forwards(required[k], cache, at, id)
    &&& forall|j: int| k < j < n ==> !forwards(#[trigger] required[j], cache, at, id)
}

proof fn lemma_traits_keep_forwarded(
    required: Seq<RequiredTrait>,
    n: nat,
    k: int,
    variable_id: VariableId,
    outer: Scope,
    cache: ModuleCache,
    at: VariableId,
    id: TraitConstraintId,
)
    requires
        last_forwarded(required, n, k, cache, at, id),
        with_traits(required, n, variable_id, outer, cache) is Ok,
    ensures
        ({
            let scope = with_traits(required, n, variable_id, outer, cache)->Ok_0;
            last_with(scope.indirect, scope.indirect.len(), (at, id)) == last_with(
                outer.indirect,
                outer.indirect.len(),
                (variable_id, required[k].signature.id),
            )
        }),
        last_with(outer.indirect, outer.indirect.len(), (variable_id, required[k].signature.id)) is Some,
    decreases n,
{
    let before = with_traits(required, (n - 1) as nat, variable_id, outer, cache)->Ok_0;
    let last = required[n - 1];
    let key = (variable_id, last.signature.id);
    if n > k + 1 {
        assert(!forwards(required[n - 1], cache, at, id));
        lemma_traits_keep_forwarded(required, (n - 1) as nat, k, variable_id, outer, cache, at, id);
        if last.signature.trait_id.0 < cache.trait_infos@.len() && cache.trait_infos@[last.signature.trait_id.0 as int].definitions@.len()
            != 0 {
            let binding = last_with(outer.indirect, outer.indirect.len(), key)->Some_0;
            match last.callsite {
                Callsite::Direct(other) => {
                    let method = method_in_impl(cache, other, binding, 0)->Ok_0;
                    let next = Scope { direct: before.direct.push((other, method)), ..before };
                    lemma_given_keeps_indirect(
                        next,
                        outer.indirect_given,
                        outer.indirect_given.len(),
                        key.1,
                        last.callsite,
                    );
                },
                Callsite::Indirect(other, passed) => {
                    let next = Scope { indirect: before.indirect.push(((other, passed), binding)), ..before };
                    lemma_last_with_push(before.indirect, ((other, passed), binding), (at, id));
                    lemma_given_keeps_indirect(
                        next,
                        outer.indirect_given,
                        outer.indirect_given.len(),
                        key.1,
                        last.callsite,
                    );
                },
                _ => {},
            }
        }
    } else {
        let binding = last_with(outer.indirect, outer.indirect.len(), key)->Some_0;
        let next = Scope { indirect: before.indirect.push(((at, id), binding)), ..before };
        lemma_last_with_push(before.indirect, ((at, id), binding), (at, id));
        lemma_given_keeps_indirect(next, outer.indirect_given, outer.indirect_given.len(), key.1, last.callsite);
    }
}

/// Forwarding of an obligation. Where a required trait of a definition is passed on
/// inside the definition at the occurrence `at` under the id `id`, its trait has members,
/// and no required trait after it is passed on there under that id, the impl that meets
/// it in the new scope is the impl that the use of the definition chose for it.
pub proof fn lemma_forwarded_obligation_resolves(
    required: Seq<RequiredTrait>,
    variable_id: VariableId,
    outer: Scope,
    cache: ModuleCache,
    k: int,
    at: VariableId,
    id: TraitConstraintId,
)
    requires
        last_forwarded(required, required.len(), k, cache, at, id),
        with_traits(required, required.len(), variable_id, outer, cache) is Ok,
    ensures
        ({
            let scope = with_traits(required, required.len(), variable_id, outer, cache)->Ok_0;
            last_with(scope.indirect, scope.indirect.len(), (at, id)) == last_with(
                outer.indirect,
                outer.indirect.len(),
                (variable_id, required[k].signature.id),
            )
        }),
        last_with(outer.indirect, outer.indirect.len(), (variable_id, required[k].signature.id)) is Some,
{
    lemma_traits_keep_forwarded(required, required.len(), k, variable_id, outer, cache, at, id);
}

/// Forwarding what `given` clauses supply does not touch the impls of obligations.
proof fn lemma_given_keeps_indirect(
    scope: Scope,
    indirect_given: Seq<(TraitConstraintId, (VariableId, TraitConstraintId, ImplInfoId))>,
    n: nat,
    key: TraitConstraintId,
    callsite: Callsite,
)
    ensures
        given_forwarded(scope, indirect_given, n, key, callsite).indirect == scope.indirect,
        given_forwarded(scope, indirect_given, n, key, callsite).direct == scope.direct,
    decreases n,
{
    if n > 0 && n <= indirect_given.len() {
        lemma_given_keeps_indirect(scope, indirect_given, (n - 1) as nat, key, callsite);
    }
}

impl Context {
    /// Is there a scope of impls, and as many of each of the four tables?
    pub fn is_scoped(&self) -> (scoped: bool)
        ensures
            scoped == self.scoped(),
    {
        self.direct_impl_mappings.len() > 0 && self.indirect_impl_mappings.len() == self.direct_impl_mappings.len()
            && self.direct_given_impl_mappings.len() == self.direct_impl_mappings.len()
            && self.indirect_given_impl_mappings.len() == self.direct_impl_mappings.len()
    }
}

} // verus!
