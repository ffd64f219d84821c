//! The state of monomorphisation, and what it knows of types: what a type variable stands
//! for once the bindings of the instantiations in force are taken into account.
use vstd::prelude::*;
use std::rc::Rc;
use crate::cache::{Binding, ModuleCache, TypeBinding};
use crate::error::Fault;
use crate::hir;
use crate::sequence::{
    after, lemma_try_map_end, lemma_try_map_identity, lemma_try_map_ok, lemma_try_map_start,
    lemma_try_map_step, try_map,
};
use crate::substitute::{yield_all, yields};
use crate::types::{
    lemma_terms_of_push, terms_of, DefinitionInfoId, FunctionType, ImplInfoId, Term, TraitConstraintId,
    Type, TypeInfoId, TypeVariableId, VariableId,
};
use crate::unify::{bindings_model, TypeBindings, RECURSION_LIMIT};

verus! {

broadcast use vstd::std_specs::hash::group_hash_axioms;

/// What a definition of the source program has become for one of the types it is used at.
#[derive(Debug)]
pub enum Definition {
    /// To be put in place of each use. A constructor without fields is one: to make its
    /// value anew at each use is cheaper than to share a global.
    Macro(hir::Ast),
    Normal(hir::DefinitionInfo),
    /// A definition that is to be loaded from memory at each use: the variable holds its
    /// address.
    Mutable(hir::DefinitionInfo),
}

/// The model of a [`Definition`].
pub enum Lowered {
    Macro(hir::Tree),
    Normal(hir::Name),
    Mutable(hir::Name),
}

impl View for Definition {
    type V = Lowered;

    open spec fn view(&self) -> Lowered {
        match self {
            Definition::Macro(ast) => Lowered::Macro(ast@),
            Definition::Normal(variable) => Lowered::Normal(variable@),
            Definition::Mutable(variable) => Lowered::Mutable(variable@),
        }
    }
}

impl Clone for Definition {
    fn clone(&self) -> (copy: Definition)
        ensures
            copy@ == self@,
    {
        match self {
            Definition::Macro(ast) => Definition::Macro(ast.clone()),
            Definition::Normal(variable) => Definition::Normal(variable.clone()),
            Definition::Mutable(variable) => Definition::Mutable(variable.clone()),
        }
    }
}

/// The impl of a trait member chosen for an occurrence of a variable.
pub type DirectImpls = Vec<(VariableId, DefinitionInfoId)>;

/// The impl chosen for an obligation that a definition passes on, by the occurrence that
/// uses the definition and the id of the obligation.
pub type IndirectImpls = Vec<((VariableId, TraitConstraintId), ImplInfoId)>;

/// The impls that `given` clauses supply for an occurrence: the obligation and its impl.
pub type DirectGivenImpls = Vec<(VariableId, (TraitConstraintId, ImplInfoId))>;

/// The impls that `given` clauses supply for an obligation that was passed on.
pub type IndirectGivenImpls = Vec<(TraitConstraintId, (VariableId, TraitConstraintId, ImplInfoId))>;

pub struct Context {
    /// The bindings of the instantiations in force, the innermost last.
    pub monomorphisation_bindings: Vec<Rc<TypeBindings>>,
    pub cache: ModuleCache,
    /// One definition of the source program is split into as many as there are types it
    /// is used at. The last entry for a definition and a type stands.
    pub definitions: Vec<(DefinitionInfoId, Type, Definition)>,
    /// What each user-defined type, applied to arguments, has been lowered to. The last
    /// entry for a type and its arguments stands.
    pub types: Vec<(TypeInfoId, Vec<Type>, crate::hir_types::Type)>,
    /// Which definition each occurrence of a trait member stands for, one scope for each
    /// definition being lowered, the innermost last.
    pub direct_impl_mappings: Vec<DirectImpls>,
    pub indirect_impl_mappings: Vec<IndirectImpls>,
    pub direct_given_impl_mappings: Vec<DirectGivenImpls>,
    pub indirect_given_impl_mappings: Vec<IndirectGivenImpls>,
    /// The id that the next definition of the intermediate representation gets.
    pub next_id: usize,
}

/// The models of a stack of bindings, in order.
pub open spec fn stack_of(stack: Seq<Rc<TypeBindings>>) -> Seq<Map<TypeVariableId, Term>> {
    Seq::new(stack.len(), |i: int| bindings_model((*stack[i])@))
}

/// The binding of the variable in the innermost of the bindings that has one.
pub open spec fn innermost(stack: Seq<Map<TypeVariableId, Term>>, id: TypeVariableId) -> Option<Term>
    decreases stack.len(),
{
    if stack.len() == 0 {
        None
    } else if stack.last().contains_key(id) {
        Some(stack.last()[id])
    } else {
        innermost(stack.drop_last(), id)
    }
}

/// The end of the chain of bindings that starts at the variable `id`: the first type on it
/// that is not a variable, or else the last variable, which nothing binds. A variable
/// that the table leaves unbound is looked up in the bindings of the instantiations in
/// force.
pub open spec fn chase(
    id: TypeVariableId,
    stack: Seq<Map<TypeVariableId, Term>>,
    store: Seq<Binding>,
    fuel: nat,
) -> Result<Result<Term, TypeVariableId>, Fault>
    decreases fuel,
{
    if fuel == 0 {
        Err(Fault::RecursionLimit)
    } else if id >= store.len() {
        Err(Fault::UnknownTypeVariable(id))
    } else {
        match store[id as int] {
            Binding::Bound(Term::TypeVariable(next)) => chase(next, stack, store, (fuel - 1) as nat),
            Binding::Bound(Term::Ref(next)) => chase(next, stack, store, (fuel - 1) as nat),
            Binding::Bound(binding) => Ok(Ok(binding)),
            Binding::Unbound(_, _) => match innermost(stack, id) {
                Some(Term::TypeVariable(next)) => chase(next, stack, store, (fuel - 1) as nat),
                Some(Term::Ref(next)) => chase(next, stack, store, (fuel - 1) as nat),
                Some(binding) => Ok(Ok(binding)),
                None => Ok(Err(id)),
            },
        }
    }
}

/// What a type stands for, one step deep: for a type variable the end of its chain of
/// bindings, for any other type the type.
pub open spec fn chase_shallow(
    t: Term,
    stack: Seq<Map<TypeVariableId, Term>>,
    store: Seq<Binding>,
) -> Result<Result<Term, TypeVariableId>, Fault> {
    match t {
        Term::TypeVariable(id) => chase(id, stack, store, RECURSION_LIMIT as nat),
        _ => Ok(Ok(t)),
    }
}

/// The type with every type variable replaced by the end of its chain of bindings, in
/// which the same is done. The lifetime of a reference stays as it is.
pub open spec fn chase_all(
    t: Term,
    stack: Seq<Map<TypeVariableId, Term>>,
    store: Seq<Binding>,
    fuel: nat,
) -> Result<Term, Fault>
    decreases fuel, 1nat,
{
    if fuel == 0 {
        Err(Fault::RecursionLimit)
    } else {
        let less = (fuel - 1) as nat;
        match t {
            Term::TypeVariable(id) => match chase(id, stack, store, less) {
                Err(fault) => Err(fault),
                Ok(Ok(binding)) => chase_all(binding, stack, store, less),
                Ok(Err(last)) => Ok(Term::TypeVariable(last)),
            },
            Term::Primitive(_) => Ok(t),
            Term::Function(parameters, return_type, environment, is_varargs) => match try_map(
                parameters,
                chaser(stack, store, less),
            ) {
                Err(fault) => Err(fault),
                Ok(ps) => match chase_all(*return_type, stack, store, less) {
                    Err(fault) => Err(fault),
                    Ok(r) => match chase_all(*environment, stack, store, less) {
                        Err(fault) => Err(fault),
                        Ok(e) => Ok(Term::Function(ps, Box::new(r), Box::new(e), is_varargs)),
                    },
                },
            },
            Term::UserDefined(_) => Ok(t),
            Term::TypeApplication(constructor, args) => match chase_all(*constructor, stack, store, less) {
                Err(fault) => Err(fault),
                Ok(c) => match try_map(args, chaser(stack, store, less)) {
                    Err(fault) => Err(fault),
                    Ok(xs) => Ok(Term::TypeApplication(Box::new(c), xs)),
                },
            },
            Term::Ref(_) => Ok(t),
        }
    }
}

/// [`chase_all`] as a function of the type alone.
pub open spec fn chaser(stack: Seq<Map<TypeVariableId, Term>>, store: Seq<Binding>, fuel: nat) -> spec_fn(
    Term,
) -> Result<Term, Fault>
    decreases fuel, 2nat,
{
    |t: Term| chase_all(t, stack, store, fuel)
}

/// Does `result` hold the end of the chain `expected`, or the same fault?
pub open spec fn reaches(
    result: Result<Result<Type, TypeVariableId>, Fault>,
    expected: Result<Result<Term, TypeVariableId>, Fault>,
) -> bool {
    match result {
        Ok(Ok(t)) => expected == Ok::<Result<Term, TypeVariableId>, Fault>(Ok(t@)),
        Ok(Err(id)) => expected == Ok::<Result<Term, TypeVariableId>, Fault>(Err(id)),
        Err(fault) => expected == Err::<Result<Term, TypeVariableId>, Fault>(fault),
    }
}

impl Context {
    /// The bindings of the instantiations in force, as models.
    pub open spec fn stack(&self) -> Seq<Map<TypeVariableId, Term>> {
        stack_of(self.monomorphisation_bindings@)
    }

    /// The binding of the variable in the innermost instantiation that has one.
    pub fn lookup_in_stack(&self, id: TypeVariableId) -> (binding: Option<Type>)
        ensures
            match binding {
                Some(t) => innermost(self.stack(), id) == Some(t@),
                None => innermost(self.stack(), id).is_none(),
            },
    {
        let ghost all = self.stack();
        let mut i: usize = self.monomorphisation_bindings.len();
        assert(all.take(i as int) =~= all);
        while i > 0
            invariant
                i <= self.monomorphisation_bindings.len(),
                all == self.stack(),
                innermost(all, id) == innermost(all.take(i as int), id),
            decreases i,
        {
            let ghost upto = all.take(i as int);
            proof {
                assert(upto.last() == bindings_model((*self.monomorphisation_bindings@[i - 1])@));
                assert(upto.drop_last() =~= all.take(i - 1));
            }
            i -= 1;
            match self.monomorphisation_bindings[i].get(&id) {
                Some(binding) => {
                    return Some(binding.clone());
                },
                None => {},
            }
        }
        None
    }

    /// Does the chain of bindings that starts at the variable end within `fuel` links?
    pub fn chain_ends(&self, id: TypeVariableId, fuel: u32) -> (ends: bool)
        ensures
            ends == !(chase(id, self.stack(), self.cache.store(), fuel as nat) matches Err(Fault::RecursionLimit)),
        decreases fuel,
    {
        if fuel == 0 {
            return false;
        }
        let fuel = fuel - 1;
        if id >= self.cache.type_bindings.len() {
            return true;
        }
        match &self.cache.type_bindings[id] {
            TypeBinding::Bound(Type::TypeVariable(id2)) => self.chain_ends(*id2, fuel),
            TypeBinding::Bound(Type::Ref(id2)) => self.chain_ends(*id2, fuel),
            TypeBinding::Bound(_) => true,
            TypeBinding::Unbound(_, _) => match self.lookup_in_stack(id) {
                Some(Type::TypeVariable(id2)) => self.chain_ends(id2, fuel),
                Some(Type::Ref(id2)) => self.chain_ends(id2, fuel),
                Some(_) => true,
                None => true,
            },
        }
    }

    /// Follow the bindings as far as possible: to the first type that is not a type
    /// variable, or else to the last type variable found. The chain of bindings ends
    /// within `fuel` links.
    pub fn find_binding(&self, id: TypeVariableId, fuel: u32) -> (result: Result<
        Result<Type, TypeVariableId>,
        Fault,
    >)
        requires
            !(chase(id, self.stack(), self.cache.store(), fuel as nat) matches Err(Fault::RecursionLimit)),
        ensures
            reaches(result, chase(id, self.stack(), self.cache.store(), fuel as nat)),
        decreases fuel,
    {
        let fuel = fuel - 1;
        if id >= self.cache.type_bindings.len() {
            return Err(Fault::UnknownTypeVariable(id));
        }
        match &self.cache.type_bindings[id] {
            TypeBinding::Bound(Type::TypeVariable(id2)) => self.find_binding(*id2, fuel),
            TypeBinding::Bound(Type::Ref(id2)) => self.find_binding(*id2, fuel),
            TypeBinding::Bound(binding) => Ok(Ok(binding.clone())),
            TypeBinding::Unbound(_, _) => match self.lookup_in_stack(id) {
                Some(Type::TypeVariable(id2)) => self.find_binding(id2, fuel),
                Some(Type::Ref(id2)) => self.find_binding(id2, fuel),
                Some(binding) => Ok(Ok(binding)),
                None => Ok(Err(id)),
            },
        }
    }

    /// [`Context::find_binding`], where the chain of bindings ends within `fuel` links;
    /// else the fault that it does not.
    pub fn find_binding_within(&self, id: TypeVariableId, fuel: u32) -> (result: Result<
        Result<Type, TypeVariableId>,
        Fault,
    >)
        ensures
            reaches(result, chase(id, self.stack(), self.cache.store(), fuel as nat)),
    {
        if !self.chain_ends(id, fuel) {
            return Err(Fault::RecursionLimit);
        }
        self.find_binding(id, fuel)
    }

    /// If this type is a type variable, follow what it is bound to until the first type
    /// that is not a type variable.
    pub fn follow_bindings_shallow(&self, typ: &Type) -> (result: Result<Result<Type, TypeVariableId>, Fault>)
        ensures
            reaches(result, chase_shallow(typ@, self.stack(), self.cache.store())),
    {
        match typ {
            Type::TypeVariable(id) => self.find_binding_within(*id, RECURSION_LIMIT),
            _ => Ok(Ok(typ.clone())),
        }
    }

    /// Recursively follow all type variables in this type, so that each bound type
    /// variable is replaced with whatever it is bound to.
    pub fn follow_all_bindings(&self, typ: &Type) -> (result: Result<Type, Fault>)
        ensures
            yields(result, chase_all(typ@, self.stack(), self.cache.store(), RECURSION_LIMIT as nat)),
    {
        self.follow_all_bindings_inner(typ, RECURSION_LIMIT)
    }

    fn follow_each(&self, types: &Vec<Type>, fuel: u32) -> (result: Result<Vec<Type>, Fault>)
        ensures
            yield_all(
                result,
                try_map(terms_of(types@), chaser(self.stack(), self.cache.store(), fuel as nat)),
            ),
        decreases fuel, 2nat,
    {
        let ghost all = terms_of(types@);
        let ghost f = chaser(self.stack(), self.cache.store(), fuel as nat);
        let mut followed: Vec<Type> = Vec::new();
        let mut i: usize = 0;
        proof {
            lemma_try_map_start(all, f);
            assert(terms_of(followed@) =~= Seq::<Term>::empty());
        }
        while i < types.len()
            invariant
                i <= types.len(),
                all == terms_of(types@),
                f == chaser(self.stack(), self.cache.store(), fuel as nat),
                try_map(all, f) == after(
                    terms_of(followed@),
                    try_map(all.subrange(i as int, all.len() as int), f),
                ),
            decreases types.len() - i,
        {
            proof {
                lemma_try_map_step(all, f, terms_of(followed@), i as int);
                assert(all[i as int] == types@[i as int]@);
            }
            match self.follow_all_bindings_inner(&types[i], fuel) {
                Err(fault) => {
                    return Err(fault);
                },
                Ok(typ) => {
                    proof {
                        lemma_terms_of_push(followed@, typ);
                    }
                    followed.push(typ);
                },
            }
            i += 1;
        }
        proof {
            lemma_try_map_end(all, f, terms_of(followed@));
        }
        Ok(followed)
    }

    pub fn follow_all_bindings_inner(&self, typ: &Type, fuel: u32) -> (result: Result<Type, Fault>)
        ensures
            yields(result, chase_all(typ@, self.stack(), self.cache.store(), fuel as nat)),
        decreases fuel, 1nat,
    {
        if fuel == 0 {
            return Err(Fault::RecursionLimit);
        }
        let fuel = fuel - 1;
        match typ {
            Type::TypeVariable(id) => match self.find_binding_within(*id, fuel) {
                Err(fault) => Err(fault),
                Ok(Ok(binding)) => self.follow_all_bindings_inner(&binding, fuel),
                Ok(Err(id)) => Ok(Type::TypeVariable(id)),
            },
            Type::Primitive(_) => Ok(typ.clone()),
            Type::Function(f) => {
                let parameters = match self.follow_each(&f.parameters, fuel) {
                    Err(fault) => {
                        return Err(fault);
                    },
                    Ok(parameters) => parameters,
                };
                let return_type = match self.follow_all_bindings_inner(&f.return_type, fuel) {
                    Err(fault) => {
                        return Err(fault);
                    },
                    Ok(return_type) => return_type,
                };
                let environment = match self.follow_all_bindings_inner(&f.environment, fuel) {
                    Err(fault) => {
                        return Err(fault);
                    },
                    Ok(environment) => environment,
                };
                Ok(
                    Type::Function(
                        FunctionType {
                            parameters,
                            return_type: Box::new(return_type),
                            environment: Box::new(environment),
                            is_varargs: f.is_varargs,
                        },
                    ),
                )
            },
            Type::UserDefined(_) => Ok(typ.clone()),
            Type::TypeApplication(con, args) => {
                let con = match self.follow_all_bindings_inner(con, fuel) {
                    Err(fault) => {
                        return Err(fault);
                    },
                    Ok(con) => con,
                };
                let args = match self.follow_each(args, fuel) {
                    Err(fault) => {
                        return Err(fault);
                    },
                    Ok(args) => args,
                };
                Ok(Type::TypeApplication(Box::new(con), args))
            },
            Type::Ref(_) => Ok(typ.clone()),
        }
    }
}

/// Does nothing bind the variable: neither the table nor the instantiations in force?
pub open spec fn loose(id: TypeVariableId, stack: Seq<Map<TypeVariableId, Term>>, store: Seq<Binding>) -> bool {
    id < store.len() && store[id as int] is Unbound && innermost(stack, id).is_none()
}

/// Has the type no type variable left that something binds, and is it no deeper than
/// `fuel` allows a walk to go?
pub open spec fn followed(t: Term, stack: Seq<Map<TypeVariableId, Term>>, store: Seq<Binding>, fuel: nat) -> bool
    decreases fuel,
{
    fuel > 0 && (match t {
        Term::TypeVariable(id) => fuel >= 2 && loose(id, stack, store),
        Term::Function(parameters, return_type, environment, _) => {
            &&& forall|i: int|
                0 <= i < parameters.len() ==> followed(#[trigger] parameters[i], stack, store, (fuel - 1) as nat)
            &&& followed(*return_type, stack, store, (fuel - 1) as nat)
            &&& followed(*environment, stack, store, (fuel - 1) as nat)
        },
        Term::TypeApplication(constructor, args) => {
            &&& followed(*constructor, stack, store, (fuel - 1) as nat)
            &&& forall|i: int| 0 <= i < args.len() ==> followed(#[trigger] args[i], stack, store, (fuel - 1) as nat)
        },
        _ => true,
    })
}

/// The last variable of a chain of bindings is one that nothing binds.
pub proof fn lemma_chase_ends_loose(
    id: TypeVariableId,
    stack: Seq<Map<TypeVariableId, Term>>,
    store: Seq<Binding>,
    fuel: nat,
)
    ensures
        chase(id, stack, store, fuel) matches Ok(Err(last)) ==> loose(last, stack, store),
    decreases fuel,
{
    if fuel > 0 && id < store.len() {
        match store[id as int] {
            Binding::Bound(Term::TypeVariable(next)) => lemma_chase_ends_loose(
                next,
                stack,
                store,
                (fuel - 1) as nat,
            ),
            Binding::Bound(Term::Ref(next)) => lemma_chase_ends_loose(next, stack, store, (fuel - 1) as nat),
            Binding::Bound(_) => {},
            Binding::Unbound(_, _) => match innermost(stack, id) {
                Some(Term::TypeVariable(next)) => lemma_chase_ends_loose(next, stack, store, (fuel - 1) as nat),
                Some(Term::Ref(next)) => lemma_chase_ends_loose(next, stack, store, (fuel - 1) as nat),
                _ => {},
            },
        }
    }
}

/// What is followed within some depth is followed within more.
pub proof fn lemma_followed_monotonic(
    t: Term,
    stack: Seq<Map<TypeVariableId, Term>>,
    store: Seq<Binding>,
    fuel: nat,
    more: nat,
)
    requires
        followed(t, stack, store, fuel),
        fuel <= more,
    ensures
        followed(t, stack, store, more),
    decreases fuel,
{
    match t {
        Term::Function(parameters, return_type, environment, _) => {
            assert forall|i: int| 0 <= i < parameters.len() implies followed(
                #[trigger] parameters[i],
                stack,
                store,
                (more - 1) as nat,
            ) by {
                lemma_followed_monotonic(parameters[i], stack, store, (fuel - 1) as nat, (more - 1) as nat);
            }
            lemma_followed_monotonic(*return_type, stack, store, (fuel - 1) as nat, (more - 1) as nat);
            lemma_followed_monotonic(*environment, stack, store, (fuel - 1) as nat, (more - 1) as nat);
        },
        Term::TypeApplication(constructor, args) => {
            lemma_followed_monotonic(*constructor, stack, store, (fuel - 1) as nat, (more - 1) as nat);
            assert forall|i: int| 0 <= i < args.len() implies followed(
                #[trigger] args[i],
                stack,
                store,
                (more - 1) as nat,
            ) by {
                lemma_followed_monotonic(args[i], stack, store, (fuel - 1) as nat, (more - 1) as nat);
            }
        },
        _ => {},
    }
}

/// What following all bindings gives has none left to follow.
pub proof fn lemma_chase_all_follows(t: Term, stack: Seq<Map<TypeVariableId, Term>>, store: Seq<Binding>, fuel: nat)
    ensures
        chase_all(t, stack, store, fuel) matches Ok(r) ==> followed(r, stack, store, fuel),
    decreases fuel, 1nat,
{
    if fuel > 0 {
        let less = (fuel - 1) as nat;
        match t {
            Term::TypeVariable(id) => {
                lemma_chase_ends_loose(id, stack, store, less);
                if let Ok(Ok(binding)) = chase(id, stack, store, less) {
                    lemma_chase_all_follows(binding, stack, store, less);
                    if let Ok(r) = chase_all(binding, stack, store, less) {
                        lemma_followed_monotonic(r, stack, store, less, fuel);
                    }
                }
            },
            Term::Function(parameters, return_type, environment, _) => {
                lemma_chase_each_follows(parameters, stack, store, less);
                lemma_chase_all_follows(*return_type, stack, store, less);
                lemma_chase_all_follows(*environment, stack, store, less);
            },
            Term::TypeApplication(constructor, args) => {
                lemma_chase_all_follows(*constructor, stack, store, less);
                lemma_chase_each_follows(args, stack, store, less);
            },
            _ => {},
        }
    }
}

proof fn lemma_chase_each_follows(types: Seq<Term>, stack: Seq<Map<TypeVariableId, Term>>, store: Seq<Binding>, fuel: nat)
    ensures
        try_map(types, chaser(stack, store, fuel)) matches Ok(rs) ==> forall|i: int|
            0 <= i < rs.len() ==> followed(#[trigger] rs[i], stack, store, fuel),
    decreases fuel, 2nat,
{
    let f = chaser(stack, store, fuel);
    lemma_try_map_ok(types, f);
    if let Ok(rs) = try_map(types, f) {
        assert forall|i: int| 0 <= i < rs.len() implies followed(#[trigger] rs[i], stack, store, fuel) by {
            assert(f(types[i]) == Ok::<Term, Fault>(rs[i]));
            lemma_chase_all_follows(types[i], stack, store, fuel);
        }
    }
}

/// What has no binding left to follow is what following all bindings gives of it.
pub proof fn lemma_followed_is_fixed(t: Term, stack: Seq<Map<TypeVariableId, Term>>, store: Seq<Binding>, fuel: nat)
    requires
        followed(t, stack, store, fuel),
    ensures
        chase_all(t, stack, store, fuel) == Ok::<Term, Fault>(t),
    decreases fuel, 1nat,
{
    let less = (fuel - 1) as nat;
    match t {
        Term::Function(parameters, return_type, environment, _) => {
            assert forall|i: int| 0 <= i < parameters.len() implies chaser(stack, store, less)(
                #[trigger] parameters[i],
            ) == Ok::<Term, Fault>(parameters[i]) by {
                lemma_followed_is_fixed(parameters[i], stack, store, less);
            }
            lemma_try_map_identity(parameters, chaser(stack, store, less));
            lemma_followed_is_fixed(*return_type, stack, store, less);
            lemma_followed_is_fixed(*environment, stack, store, less);
        },
        Term::TypeApplication(constructor, args) => {
            lemma_followed_is_fixed(*constructor, stack, store, less);
            assert forall|i: int| 0 <= i < args.len() implies chaser(stack, store, less)(#[trigger] args[i])
                == Ok::<Term, Fault>(args[i]) by {
                lemma_followed_is_fixed(args[i], stack, store, less);
            }
            lemma_try_map_identity(args, chaser(stack, store, less));
        },
        _ => {},
    }
}

/// Following all bindings is idempotent: to follow the bindings of what following gave
/// gives the same again.
pub proof fn lemma_follow_all_idempotent(t: Term, stack: Seq<Map<TypeVariableId, Term>>, store: Seq<Binding>, fuel: nat)
    requires
        chase_all(t, stack, store, fuel) is Ok,
    ensures
        chase_all(chase_all(t, stack, store, fuel)->Ok_0, stack, store, fuel) == chase_all(t, stack, store, fuel),
{
    lemma_chase_all_follows(t, stack, store, fuel);
    lemma_followed_is_fixed(chase_all(t, stack, store, fuel)->Ok_0, stack, store, fuel);
}

} // verus!
