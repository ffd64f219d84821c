//! The values that are handed to the solver: literals, named constants, and constants that
//! stand for what cannot be encoded.
use vstd::prelude::*;
use vstd::string::StringExecFns;
use crate::cache::ModuleCache;
use crate::error::Fault;
use crate::refine::{sort_of, with_term, Encoding, RefinementContext, Sort};
use crate::refine_terms::{
    with_definition, RefinementValue, RefinementValueModel, Refinements, RefinementsModel,
    SolverTerm, SolverTermModel, TermId,
};
use crate::types::{DefinitionInfoId, Term, Type};
use crate::unify::RECURSION_LIMIT;

verus! {

/// What is known of an expression that is the term that was put in the table last.
pub open spec fn last_term(e: Encoding) -> RefinementsModel {
    RefinementsModel {
        value: RefinementValueModel::Pure(TermId(e.table.terms.len() as usize)),
        asserts: Seq::empty(),
        bindings: Seq::empty(),
    }
}

/// What becomes of the encoding when a hidden constant is made for the type: the type is
/// encoded, and the constant gets the next number.
pub open spec fn hidden(t: Term, e: Encoding, cache: &ModuleCache) -> (Result<TermId, Fault>, Encoding) {
    let (encoded, e1) = sort_of(t, e, cache, RECURSION_LIMIT as nat);
    match encoded {
        Err(fault) => (Err(fault), e),
        Ok(sort) => if e1.next_hidden == usize::MAX {
            (Err(Fault::OutOfIds), e)
        } else {
            (
                Ok(TermId(e1.table.terms.len() as usize)),
                Encoding {
                    next_hidden: (e1.next_hidden + 1) as usize,
                    ..with_term(e1, SolverTermModel::Hidden(e1.next_hidden, sort))
                },
            )
        },
    }
}

impl RefinementContext {
    /// Puts the term in the table.
    pub fn term(&mut self, term: SolverTerm) -> (id: TermId)
        ensures
            id.0 == old(self)@.table.terms.len(),
            final(self)@ == with_term(old(self)@, term@),
    {
        let id = self.table.push_term(term);
        proof {
            assert(self@.types =~= old(self)@.types);
            assert(self@.datatypes =~= old(self)@.datatypes);
        }
        id
    }

    pub fn bool_value(&mut self, value: bool) -> (r: Refinements)
        ensures
            r@ == last_term(old(self)@),
            final(self)@ == with_term(old(self)@, SolverTermModel::Bool(value)),
    {
        Refinements::from_value(self.term(SolverTerm::Bool(value)))
    }

    pub fn integer_value(&mut self, value: u64, signed: bool) -> (r: Refinements)
        ensures
            r@ == last_term(old(self)@),
            final(self)@ == with_term(old(self)@, SolverTermModel::Integer(value, signed)),
    {
        Refinements::from_value(self.term(SolverTerm::Integer(value, signed)))
    }

    /// The value of the number with the bits.
    pub fn float_value(&mut self, bits: u64) -> (r: Refinements)
        ensures
            r@ == last_term(old(self)@),
            final(self)@ == with_term(old(self)@, SolverTermModel::Float(bits)),
    {
        Refinements::from_value(self.term(SolverTerm::Float(bits)))
    }

    pub fn string_value(&mut self, value: &str) -> (r: Refinements)
        ensures
            r@ == last_term(old(self)@),
            final(self)@ == with_term(old(self)@, SolverTermModel::Text(value@)),
    {
        Refinements::from_value(self.term(SolverTerm::Text(String::from_str(value))))
    }

    /// The constant of the name and the sort.
    pub fn variable(&mut self, name: &str, sort: Sort) -> (id: TermId)
        ensures
            id.0 == old(self)@.table.terms.len(),
            final(self)@ == with_term(old(self)@, SolverTermModel::Constant(name@, sort@)),
    {
        self.term(SolverTerm::Constant(String::from_str(name), sort))
    }

    /// A new constant that is hidden from the reader of a model. It stands in for values
    /// that are impure, and for values of types that the solver has no sort for, like
    /// functions.
    pub fn hidden_variable(&mut self, typ: &Type, cache: &ModuleCache) -> (result: Result<TermId, Fault>)
        ensures
            match hidden(typ@, old(self)@, cache).0 {
                Ok(id) => result == Ok::<TermId, Fault>(id) && final(self)@ == hidden(typ@, old(self)@, cache).1,
                Err(fault) => result == Err::<TermId, Fault>(fault),
            },
    {
        let sort = match self.type_to_sort(typ, cache, RECURSION_LIMIT) {
            Err(fault) => {
                return Err(fault);
            },
            Ok(sort) => sort,
        };
        if self.next_hidden == usize::MAX {
            return Err(Fault::OutOfIds);
        }
        let number = self.next_hidden;
        let id = self.term(SolverTerm::Hidden(number, sort));
        let ghost before = self@;
        self.next_hidden = number + 1;
        proof {
            assert(self@.types =~= before.types);
            assert(self@.datatypes =~= before.datatypes);
        }
        Ok(id)
    }

    /// What is known of what cannot be encoded: it is a hidden constant of the sort of its
    /// type.
    pub fn unrepresentable(&mut self, typ: &Type, cache: &ModuleCache) -> (result: Result<Refinements, Fault>)
        ensures
            match hidden(typ@, old(self)@, cache).0 {
                Ok(id) => result matches Ok(r) && r@ == (RefinementsModel {
                    value: RefinementValueModel::Pure(id),
                    asserts: Seq::empty(),
                    bindings: Seq::empty(),
                }) && final(self)@ == hidden(typ@, old(self)@, cache).1,
                Err(fault) => result matches Err(f) && f == fault,
            },
    {
        match self.hidden_variable(typ, cache) {
            Err(fault) => Err(fault),
            Ok(id) => Ok(Refinements::from_value(id)),
        }
    }

    /// The value of what cannot be encoded: a hidden constant of the sort of its type.
    pub fn unrepresentable_value(&mut self, typ: &Type, cache: &ModuleCache) -> (result: Result<
        RefinementValue,
        Fault,
    >)
        ensures
            match hidden(typ@, old(self)@, cache).0 {
                Ok(id) => result matches Ok(RefinementValue::Pure(found)) && found == id && final(self)@ == hidden(
                    typ@,
                    old(self)@,
                    cache,
                ).1,
                Err(fault) => result matches Err(f) && f == fault,
            },
    {
        match self.hidden_variable(typ, cache) {
            Err(fault) => Err(fault),
            Ok(id) => Ok(RefinementValue::Pure(id)),
        }
    }

    /// Notes what is known of the definition, unless something is known of it already.
    pub fn add_definition(&mut self, id: DefinitionInfoId, refinements: Refinements)
        ensures
            final(self)@ == (Encoding { table: with_definition(old(self)@.table, id, refinements@), ..old(self)@ }),
    {
        self.table.add_definition(id, refinements);
        proof {
            assert(self@.types =~= old(self)@.types);
            assert(self@.datatypes =~= old(self)@.datatypes);
        }
    }
}

} // verus!
