//! The steps of inference that change what the cache knows: unification, new type
//! variables, new occurrences, new obligations.
use vstd::prelude::*;
use vstd::string::StringExecFns;
use crate::cache::{Binding, ModuleCache, TraitInfo, VariableInfo};
use crate::error::{ErrorMessage, Fault, Location, Mismatch, UnificationError};
use crate::infer_model::{Knowledge, TraitModel, VariableModel};
use crate::traits::{
    Callsite, Constraint, ConstraintSignature, RequiredTrait, Signature, TraitConstraint,
};
use crate::types::{
    terms_of, ImplScopeId, Kind, LetBindingLevel, Term, TraitConstraintId, TraitInfoId, Type,
    TypeVariableId, VariableId,
};
use crate::unify::{commit, unify, unify_terms, Pending, RECURSION_LIMIT};

verus! {

/// What is known once the two types were unified: the bindings found are committed, or
/// else the failure is reported at the place.
pub open spec fn unified(k: Knowledge, t1: Term, t2: Term, location: Location) -> Knowledge {
    let nothing = Pending { bindings: Map::empty(), level_bindings: Seq::empty() };
    let (outcome, pending) = unify_terms(t1, t2, nothing, k.store, RECURSION_LIMIT as nat);
    match outcome {
        Ok(()) => Knowledge { store: commit(k.store, pending), ..k },
        Err(mismatch) => Knowledge { diagnostics: k.diagnostics.push((mismatch, location)), ..k },
    }
}

/// Unifies the two types in the cache.
pub fn unify_types(t1: &Type, t2: &Type, location: Location, cache: &mut ModuleCache)
    ensures
        final(cache).knowledge() == unified(old(cache).knowledge(), t1@, t2@, location),
{
    unify(t1, t2, location, cache);
    proof {
        let before = old(cache).knowledge();
        let after = cache.knowledge();
        let expected = unified(before, t1@, t2@, location);
        assert(after.diagnostics =~= expected.diagnostics);
        assert(after.definitions =~= expected.definitions);
        assert(after.traits =~= expected.traits);
        assert(after.impls =~= expected.impls);
        assert(after.variables =~= expected.variables);
    }
}

/// What is known once a failure was reported at the place.
pub open spec fn reported(k: Knowledge, mismatch: Mismatch, location: Location) -> Knowledge {
    Knowledge { diagnostics: k.diagnostics.push((mismatch, location)), ..k }
}

/// Reports a failure at the place.
pub fn report(error: UnificationError, location: Location, cache: &mut ModuleCache)
    ensures
        final(cache).knowledge() == reported(old(cache).knowledge(), error@, location),
{
    cache.diagnostics.push(ErrorMessage { error, location });
    proof {
        let after = cache.knowledge();
        let expected = reported(old(cache).knowledge(), error@, location);
        assert(after.diagnostics =~= expected.diagnostics);
        assert(after.definitions =~= expected.definitions);
        assert(after.traits =~= expected.traits);
        assert(after.impls =~= expected.impls);
        assert(after.variables =~= expected.variables);
    }
}

/// The type variable that is made next, and what is known once it is made at the level in
/// force.
pub open spec fn fresh(k: Knowledge) -> (Term, Knowledge) {
    (
        Term::TypeVariable(k.store.len() as usize),
        Knowledge { store: k.store.push(Binding::Unbound(LetBindingLevel(k.level), Kind(0))), ..k },
    )
}

/// A new type variable at the level in force.
pub fn fresh_type(cache: &mut ModuleCache) -> (typ: Type)
    ensures
        (typ@, final(cache).knowledge()) == fresh(old(cache).knowledge()),
{
    let typ = crate::substitute::next_type_variable(cache);
    proof {
        let after = cache.knowledge();
        let expected = fresh(old(cache).knowledge()).1;
        assert(after.diagnostics =~= expected.diagnostics);
        assert(after.definitions =~= expected.definitions);
        assert(after.traits =~= expected.traits);
        assert(after.impls =~= expected.impls);
        assert(after.variables =~= expected.variables);
    }
    typ
}

/// So many type variables, each made after the other, and what is known after.
pub open spec fn fresh_each(k: Knowledge, n: nat) -> (Seq<Term>, Knowledge)
    decreases n,
{
    if n == 0 {
        (Seq::empty(), k)
    } else {
        let (before, k1) = fresh_each(k, (n - 1) as nat);
        let (made, k2) = fresh(k1);
        (before.push(made), k2)
    }
}

/// So many new type variables at the level in force.
pub fn fresh_types(n: usize, cache: &mut ModuleCache) -> (types: Vec<Type>)
    ensures
        (terms_of(types@), final(cache).knowledge()) == fresh_each(old(cache).knowledge(), n as nat),
{
    let mut types: Vec<Type> = Vec::new();
    let mut i: usize = 0;
    assert(terms_of(types@) =~= Seq::<Term>::empty());
    while i < n
        invariant
            i <= n,
            (terms_of(types@), cache.knowledge()) == fresh_each(old(cache).knowledge(), i as nat),
        decreases n - i,
    {
        let made = fresh_type(cache);
        proof {
            crate::types::lemma_terms_of_push(types@, made);
        }
        types.push(made);
        i += 1;
    }
    types
}

/// What is known once an occurrence of a variable with the name was added at the place.
pub open spec fn with_variable(k: Knowledge, name: Seq<char>, location: Location) -> (VariableId, Knowledge) {
    (
        VariableId(k.variables.len() as usize),
        Knowledge {
            variables: k.variables.push(VariableModel { name, location, required_impls: Seq::empty() }),
            ..k
        },
    )
}

impl ModuleCache {
    /// Adds an occurrence of a variable with the name at the place.
    pub fn push_variable(&mut self, name: String, location: Location) -> (id: VariableId)
        ensures
            (id, final(self).knowledge()) == with_variable(old(self).knowledge(), name@, location),
    {
        let id = VariableId(self.variable_infos.len());
        let info = VariableInfo { name, location, required_impls: Vec::new() };
        assert(info@.required_impls =~= Seq::empty());
        self.variable_infos.push(info);
        proof {
            let after = self.knowledge();
            let expected = with_variable(old(self).knowledge(), name@, location).1;
            assert(after.diagnostics =~= expected.diagnostics);
            assert(after.definitions =~= expected.definitions);
            assert(after.traits =~= expected.traits);
            assert(after.impls =~= expected.impls);
            assert(after.variables =~= expected.variables);
        }
        id
    }
}

/// The obligation that the types be an impl of the trait, arising directly at the
/// occurrence, under the next free id; and what is known once that id is taken.
pub open spec fn obligation(k: Knowledge, trait_id: TraitInfoId, args: Seq<Term>, callsite: VariableId) -> (
    Result<Constraint, Fault>,
    Knowledge,
) {
    if k.next_constraint == u32::MAX {
        (Err(Fault::OutOfIds), k)
    } else {
        (
            Ok(
                Constraint {
                    signature: Signature { trait_id, args, id: TraitConstraintId(k.next_constraint) },
                    callsite: Callsite::Direct(callsite),
                    scope: ImplScopeId(0),
                },
            ),
            Knowledge { next_constraint: (k.next_constraint + 1) as u32, ..k },
        )
    }
}

/// Does `result` hold the constraint of the outcome, with `after` what is known by the
/// outcome; or the fault of the outcome?
pub open spec fn obliges(
    result: Result<TraitConstraint, Fault>,
    expected: (Result<Constraint, Fault>, Knowledge),
    after: Knowledge,
) -> bool {
    match expected.0 {
        Ok(constraint) => result matches Ok(found) && found@ == constraint && after == expected.1,
        Err(fault) => result matches Err(f) && f == fault && after == expected.1,
    }
}

/// Makes the obligation that the types be an impl of the trait, arising directly at the
/// occurrence.
pub fn make_constraint(trait_id: TraitInfoId, args: Vec<Type>, callsite: VariableId, cache: &mut ModuleCache) -> (result:
    Result<TraitConstraint, Fault>)
    ensures
        obliges(result, obligation(old(cache).knowledge(), trait_id, terms_of(args@), callsite), final(cache).knowledge()),
{
    if cache.current_trait_constraint_id == u32::MAX {
        return Err(Fault::OutOfIds);
    }
    let id = TraitConstraintId(cache.current_trait_constraint_id);
    cache.current_trait_constraint_id = cache.current_trait_constraint_id + 1;
    proof {
        let after = cache.knowledge();
        let expected = obligation(old(cache).knowledge(), trait_id, terms_of(args@), callsite).1;
        assert(after.diagnostics =~= expected.diagnostics);
        assert(after.definitions =~= expected.definitions);
        assert(after.traits =~= expected.traits);
        assert(after.impls =~= expected.impls);
        assert(after.variables =~= expected.variables);
    }
    Ok(
        TraitConstraint {
            required: RequiredTrait {
                signature: ConstraintSignature { trait_id, args, id },
                callsite: Callsite::Direct(callsite),
            },
            scope: ImplScopeId(0),
        },
    )
}

/// The obligation that the type of an integer literal be an integer type.
pub open spec fn int_obligation(k: Knowledge, int_type: TypeVariableId, callsite: VariableId) -> (
    Result<Constraint, Fault>,
    Knowledge,
) {
    match k.int_trait {
        None => (Err(Fault::Malformed), k),
        Some(trait_id) => obligation(k, trait_id, seq![Term::TypeVariable(int_type)], callsite),
    }
}

/// Makes the obligation that the type of an integer literal be an integer type.
pub fn int_constraint(int_type: TypeVariableId, callsite: VariableId, cache: &mut ModuleCache) -> (result: Result<
    TraitConstraint,
    Fault,
>)
    ensures
        obliges(result, int_obligation(old(cache).knowledge(), int_type, callsite), final(cache).knowledge()),
{
    match cache.int_trait {
        None => Err(Fault::Malformed),
        Some(trait_id) => {
            let mut args: Vec<Type> = Vec::new();
            args.push(Type::TypeVariable(int_type));
            assert(terms_of(args@) =~= seq![Term::TypeVariable(int_type)]);
            make_constraint(trait_id, args, callsite, cache)
        },
    }
}

/// The name of the trait that stands for having a field of the name.
pub open spec fn member_trait_name(field: Seq<char>) -> Seq<char> {
    seq!['.'] + field
}

/// The first trait with the name, from position `from` on.
pub open spec fn trait_named(traits: Seq<TraitModel>, name: Seq<char>, from: nat) -> Option<nat>
    decreases traits.len() - from,
{
    if from >= traits.len() {
        None
    } else if traits[from as int].name == name {
        Some(from)
    } else {
        trait_named(traits, name, from + 1)
    }
}

/// The trait that stands for having a field of the name, and what is known once it is
/// made where it was not there: a trait without members over a type variable for the
/// collection, on which a type variable for the field depends.
pub open spec fn member_access_trait(k: Knowledge, field: Seq<char>, level: LetBindingLevel) -> (
    TraitInfoId,
    Knowledge,
) {
    let name = member_trait_name(field);
    match trait_named(k.traits, name, 0) {
        Some(at) => (TraitInfoId(at as usize), k),
        None => (
            TraitInfoId(k.traits.len() as usize),
            Knowledge {
                store: k.store.push(Binding::Unbound(level, Kind(0))).push(Binding::Unbound(level, Kind(0))),
                traits: k.traits.push(
                    TraitModel {
                        name,
                        typeargs: seq![k.store.len() as usize],
                        fundeps: seq![(k.store.len() + 1) as usize],
                        definitions: Seq::empty(),
                        trait_node: None,
                        location: Location { file: 0, line: 0, column: 0 },
                    },
                ),
                ..k
            },
        ),
    }
}

impl ModuleCache {
    /// The trait that stands for having a field of the name, which is made where it is not
    /// there yet.
    pub fn get_member_access_trait(&mut self, field: &String, level: LetBindingLevel) -> (id: TraitInfoId)
        ensures
            (id, final(self).knowledge()) == member_access_trait(old(self).knowledge(), field@, level),
    {
        proof {
            reveal_strlit(".");
        }
        let name = String::from_str(".").concat(field.as_str());
        assert(name@ =~= member_trait_name(field@));
        let ghost traits = self.knowledge().traits;
        let mut i: usize = 0;
        while i < self.trait_infos.len()
            invariant
                i <= self.trait_infos.len(),
                self == old(self),
                traits == self.knowledge().traits,
                name@ == member_trait_name(field@),
                trait_named(traits, name@, 0) == trait_named(traits, name@, i as nat),
            decreases self.trait_infos.len() - i,
        {
            assert(traits[i as int].name == self.trait_infos@[i as int].name@);
            if self.trait_infos[i].name == name {
                return TraitInfoId(i);
            }
            i += 1;
        }
        let collection = self.next_type_variable_id(level);
        let field_type = self.next_type_variable_id(level);
        let mut typeargs: Vec<TypeVariableId> = Vec::new();
        typeargs.push(collection);
        let mut fundeps: Vec<TypeVariableId> = Vec::new();
        fundeps.push(field_type);
        let id = TraitInfoId(self.trait_infos.len());
        let info = TraitInfo {
            name,
            typeargs,
            fundeps,
            definitions: Vec::new(),
            trait_node: None,
            location: Location::builtin(),
        };
        proof {
            assert(info@.typeargs =~= seq![collection]);
            assert(info@.fundeps =~= seq![field_type]);
            assert(info@.definitions =~= Seq::empty());
        }
        self.trait_infos.push(info);
        proof {
            let after = self.knowledge();
            let expected = member_access_trait(old(self).knowledge(), field@, level).1;
            assert(after.diagnostics =~= expected.diagnostics);
            assert(after.definitions =~= expected.definitions);
            assert(after.traits =~= expected.traits);
            assert(after.impls =~= expected.impls);
            assert(after.variables =~= expected.variables);
        }
        id
    }
}

/// The digits of the number, the most significant first.
pub open spec fn decimal(n: nat) -> Seq<char>
    decreases n,
{
    if n < 10 {
        seq![digit(n)]
    } else {
        decimal(n / 10).push(digit(n % 10))
    }
}

/// The character of a digit.
pub open spec fn digit(d: nat) -> char {
    if d == 0 {
        '0'
    } else if d == 1 {
        '1'
    } else if d == 2 {
        '2'
    } else if d == 3 {
        '3'
    } else if d == 4 {
        '4'
    } else if d == 5 {
        '5'
    } else if d == 6 {
        '6'
    } else if d == 7 {
        '7'
    } else if d == 8 {
        '8'
    } else {
        '9'
    }
}

/// The text of a digit.
pub fn digit_text(d: u64) -> (text: &'static str)
    requires
        d < 10,
    ensures
        text@ == seq![digit(d as nat)],
{
    proof {
        reveal_strlit("0");
        reveal_strlit("1");
        reveal_strlit("2");
        reveal_strlit("3");
        reveal_strlit("4");
        reveal_strlit("5");
        reveal_strlit("6");
        reveal_strlit("7");
        reveal_strlit("8");
        reveal_strlit("9");
    }
    let text = if d == 0 {
        "0"
    } else if d == 1 {
        "1"
    } else if d == 2 {
        "2"
    } else if d == 3 {
        "3"
    } else if d == 4 {
        "4"
    } else if d == 5 {
        "5"
    } else if d == 6 {
        "6"
    } else if d == 7 {
        "7"
    } else if d == 8 {
        "8"
    } else {
        "9"
    };
    assert(text@ =~= seq![digit(d as nat)]);
    text
}

/// The number in decimal.
pub fn decimal_text(n: u64) -> (text: String)
    ensures
        text@ == decimal(n as nat),
    decreases n,
{
    if n < 10 {
        String::from_str(digit_text(n))
    } else {
        let front = decimal_text(n / 10);
        let last = digit_text(n % 10);
        let text = front.concat(last);
        assert(text@ =~= decimal((n / 10) as nat).push(digit((n % 10) as nat)));
        text
    }
}

} // verus!
