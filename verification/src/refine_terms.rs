//! The terms that are handed to the solver, and what is known of an expression once it is
//! encoded. Terms are kept in a table and known by their place in it, as the solver knows
//! them by a handle.
use vstd::prelude::*;
use std::collections::HashMap;
use crate::error::{Fault, Location};
use crate::refine::{Sort, SortModel};
use crate::types::DefinitionInfoId;

verus! {

broadcast use vstd::std_specs::hash::group_hash_axioms;

/// An operation on two integers that the solver knows.
#[derive(Clone, Copy, Debug, PartialEq, Eq, Structural)]
pub enum Operator {
    Add,
    Subtract,
    Multiply,
    Divide,
    LessThan,
    LessThanOrEqual,
    GreaterThan,
    GreaterThanOrEqual,
    Equal,
    Distinct,
}

/// The sort of what the operation gives: an integer for the arithmetic, a boolean for a
/// comparison.
pub open spec fn operator_sort(operator: Operator) -> SortModel {
    match operator {
        Operator::Add => SortModel::Int,
        Operator::Subtract => SortModel::Int,
        Operator::Multiply => SortModel::Int,
        Operator::Divide => SortModel::Int,
        _ => SortModel::Bool,
    }
}

/// The place of a term in the table.
#[derive(Clone, Copy, Debug, PartialEq, Eq, Structural)]
pub struct TermId(pub usize);

/// What is applied to arguments.
#[derive(Debug)]
pub enum Callee {
    /// The constructor with the number of the datatype with the name.
    Constructor(String, usize),
    /// The function that was declared under the name.
    Declared(String),
}

/// The model of a [`Callee`].
pub enum CalleeModel {
    Constructor(Seq<char>, usize),
    Declared(Seq<char>),
}

impl View for Callee {
    type V = CalleeModel;

    open spec fn view(&self) -> CalleeModel {
        match self {
            Callee::Constructor(datatype, n) => CalleeModel::Constructor(datatype@, *n),
            Callee::Declared(name) => CalleeModel::Declared(name@),
        }
    }
}

impl Clone for Callee {
    fn clone(&self) -> (copy: Callee)
        ensures
            copy@ == self@,
    {
        match self {
            Callee::Constructor(datatype, n) => Callee::Constructor(datatype.clone(), *n),
            Callee::Declared(name) => Callee::Declared(name.clone()),
        }
    }
}

/// A term of the solver.
#[derive(Debug)]
pub enum SolverTerm {
    Bool(bool),
    /// The number, and whether it is signed.
    Integer(u64, bool),
    /// The bits of the number.
    Float(u64),
    Text(String),
    /// A constant that is known by its name.
    Constant(String, Sort),
    /// A constant that is hidden from the reader of a model, known by its number. It stands
    /// for a value of which nothing is known.
    Hidden(usize, Sort),
    /// What is applied, its arguments, and the sort of the result.
    Apply(Callee, Vec<TermId>, Sort),
    Operation(Operator, TermId, TermId),
}

/// The model of a [`SolverTerm`].
pub enum SolverTermModel {
    Bool(bool),
    Integer(u64, bool),
    Float(u64),
    Text(Seq<char>),
    Constant(Seq<char>, SortModel),
    Hidden(usize, SortModel),
    Apply(CalleeModel, Seq<TermId>, SortModel),
    Operation(Operator, TermId, TermId),
}

impl View for SolverTerm {
    type V = SolverTermModel;

    open spec fn view(&self) -> SolverTermModel {
        match self {
            SolverTerm::Bool(b) => SolverTermModel::Bool(*b),
            SolverTerm::Integer(n, signed) => SolverTermModel::Integer(*n, *signed),
            SolverTerm::Float(bits) => SolverTermModel::Float(*bits),
            SolverTerm::Text(text) => SolverTermModel::Text(text@),
            SolverTerm::Constant(name, sort) => SolverTermModel::Constant(name@, sort@),
            SolverTerm::Hidden(n, sort) => SolverTermModel::Hidden(*n, sort@),
            SolverTerm::Apply(callee, args, sort) => SolverTermModel::Apply(callee@, args@, sort@),
            SolverTerm::Operation(operator, a, b) => SolverTermModel::Operation(*operator, *a, *b),
        }
    }
}

/// The sort of the term.
pub open spec fn sort_of_term(term: SolverTermModel) -> SortModel {
    match term {
        SolverTermModel::Bool(_) => SortModel::Bool,
        SolverTermModel::Integer(_, _) => SortModel::Int,
        SolverTermModel::Float(_) => SortModel::Real,
        SolverTermModel::Text(_) => SortModel::Text,
        SolverTermModel::Constant(_, sort) => sort,
        SolverTermModel::Hidden(_, sort) => sort,
        SolverTermModel::Apply(_, _, sort) => sort,
        SolverTermModel::Operation(operator, _, _) => operator_sort(operator),
    }
}

/// The value of an expression.
#[derive(Debug)]
pub enum RefinementValue {
    /// The expression is the term.
    Pure(TermId),
    /// The expression is a function or a constructor, with the terms that stand for its
    /// parameters.
    Function(Callee, Vec<TermId>),
    /// The expression is a statement: it has no value.
    Unit,
    /// The expression has no value that the solver could know. Nor has anything that it
    /// is part of.
    Impure,
}

/// The model of a [`RefinementValue`].
pub enum RefinementValueModel {
    Pure(TermId),
    Function(CalleeModel, Seq<TermId>),
    Unit,
    Impure,
}

impl View for RefinementValue {
    type V = RefinementValueModel;

    open spec fn view(&self) -> RefinementValueModel {
        match self {
            RefinementValue::Pure(term) => RefinementValueModel::Pure(*term),
            RefinementValue::Function(callee, parameters) => RefinementValueModel::Function(callee@, parameters@),
            RefinementValue::Unit => RefinementValueModel::Unit,
            RefinementValue::Impure => RefinementValueModel::Impure,
        }
    }
}

/// A copy of the list.
pub fn copy_list<T: Copy>(list: &Vec<T>) -> (copy: Vec<T>)
    ensures
        copy@ == list@,
{
    let mut copy: Vec<T> = Vec::new();
    let mut i: usize = 0;
    while i < list.len()
        invariant
            i <= list@.len(),
            copy@ == list@.take(i as int),
        decreases list@.len() - i,
    {
        copy.push(list[i]);
        assert(copy@ =~= list@.take(i + 1));
        i += 1;
    }
    assert(list@.take(list@.len() as int) =~= list@);
    copy
}

impl Clone for RefinementValue {
    fn clone(&self) -> (copy: RefinementValue)
        ensures
            copy@ == self@,
    {
        match self {
            RefinementValue::Pure(term) => RefinementValue::Pure(*term),
            RefinementValue::Function(callee, parameters) => RefinementValue::Function(
                callee.clone(),
                copy_list(parameters),
            ),
            RefinementValue::Unit => RefinementValue::Unit,
            RefinementValue::Impure => RefinementValue::Impure,
        }
    }
}

/// What is known of an expression once it is encoded: its value, what has to hold where it
/// stands, and what its patterns were bound to.
#[derive(Debug)]
pub struct Refinements {
    pub value: RefinementValue,
    /// The terms that have to hold, each with the place in the program that asks for it.
    pub asserts: Vec<(TermId, Location)>,
    /// The terms of patterns, each with the term that it was bound to.
    pub bindings: Vec<(TermId, TermId)>,
}

/// The model of a [`Refinements`].
pub struct RefinementsModel {
    pub value: RefinementValueModel,
    pub asserts: Seq<(TermId, Location)>,
    pub bindings: Seq<(TermId, TermId)>,
}

impl View for Refinements {
    type V = RefinementsModel;

    open spec fn view(&self) -> RefinementsModel {
        RefinementsModel { value: self.value@, asserts: self.asserts@, bindings: self.bindings@ }
    }
}

impl Clone for Refinements {
    fn clone(&self) -> (copy: Refinements)
        ensures
            copy@ == self@,
    {
        Refinements {
            value: self.value.clone(),
            asserts: copy_list(&self.asserts),
            bindings: copy_list(&self.bindings),
        }
    }
}

/// The term that the expression is, if it is one.
pub open spec fn value_of(r: RefinementsModel) -> Option<TermId> {
    match r.value {
        RefinementValueModel::Pure(term) => Some(term),
        _ => None,
    }
}

/// What is known of the first with what has to hold for the second, and with its
/// bindings.
pub open spec fn combined(first: RefinementsModel, second: RefinementsModel) -> RefinementsModel {
    RefinementsModel {
        value: first.value,
        asserts: first.asserts + second.asserts,
        bindings: first.bindings + second.bindings,
    }
}

/// A statement with what has to hold for the first `n` of the list, and with their
/// bindings.
pub open spec fn combined_all(list: Seq<RefinementsModel>, n: nat) -> RefinementsModel
    decreases n,
{
    if n == 0 || n > list.len() {
        RefinementsModel { value: RefinementValueModel::Unit, asserts: Seq::empty(), bindings: Seq::empty() }
    } else {
        combined(combined_all(list, (n - 1) as nat), list[n - 1])
    }
}

/// What is known of the expression under a condition: the condition has to hold at the
/// place, with all that has to hold for the condition itself. A condition without a value
/// asks for nothing.
pub open spec fn asserted(r: RefinementsModel, given: Option<RefinementsModel>, location: Location) -> RefinementsModel {
    match given {
        None => r,
        Some(condition) => match condition.value {
            RefinementValueModel::Pure(term) => RefinementsModel {
                asserts: (r.asserts + condition.asserts).push((term, location)),
                bindings: r.bindings + condition.bindings,
                ..r
            },
            _ => r,
        },
    }
}

/// The statement that the pattern is bound to the value: the two are the same, where both
/// are terms. Where one of them is none, the statement is impure.
pub open spec fn bound_to(pattern: RefinementsModel, value: RefinementsModel) -> RefinementsModel {
    match (value_of(pattern), value_of(value)) {
        (Some(p), Some(v)) => RefinementsModel {
            value: RefinementValueModel::Unit,
            asserts: pattern.asserts + value.asserts,
            bindings: (pattern.bindings + value.bindings).push((p, v)),
        },
        _ => RefinementsModel {
            value: RefinementValueModel::Impure,
            asserts: pattern.asserts + value.asserts,
            bindings: pattern.bindings + value.bindings,
        },
    }
}

/// The models of the refinements, in order.
pub open spec fn refinements_of(list: Seq<Refinements>) -> Seq<RefinementsModel> {
    Seq::new(list.len(), |i: int| list[i]@)
}

/// The two lists, one after the other.
pub fn concat<T: Copy>(first: &Vec<T>, second: &Vec<T>) -> (both: Vec<T>)
    ensures
        both@ == first@ + second@,
{
    let mut both = copy_list(first);
    let mut i: usize = 0;
    while i < second.len()
        invariant
            i <= second@.len(),
            both@ == first@ + second@.take(i as int),
        decreases second@.len() - i,
    {
        both.push(second[i]);
        assert(both@ =~= first@ + second@.take(i + 1));
        i += 1;
    }
    assert(second@.take(second@.len() as int) =~= second@);
    both
}

impl Refinements {
    pub fn new(value: RefinementValue, asserts: Vec<(TermId, Location)>, bindings: Vec<(TermId, TermId)>) -> (r:
        Refinements)
        ensures
            r@ == (RefinementsModel { value: value@, asserts: asserts@, bindings: bindings@ }),
    {
        Refinements { value, asserts, bindings }
    }

    /// What is known of an expression that is the term, where nothing has to hold for it.
    pub fn from_value(term: TermId) -> (r: Refinements)
        ensures
            r@ == (RefinementsModel {
                value: RefinementValueModel::Pure(term),
                asserts: Seq::empty(),
                bindings: Seq::empty(),
            }),
    {
        Refinements { value: RefinementValue::Pure(term), asserts: Vec::new(), bindings: Vec::new() }
    }

    /// What is known of a function or a constructor.
    pub fn function(callee: Callee, parameters: Vec<TermId>) -> (r: Refinements)
        ensures
            r@ == (RefinementsModel {
                value: RefinementValueModel::Function(callee@, parameters@),
                asserts: Seq::empty(),
                bindings: Seq::empty(),
            }),
    {
        Refinements { value: RefinementValue::Function(callee, parameters), asserts: Vec::new(), bindings: Vec::new() }
    }

    /// What is known of an expression that has no value that the solver could know.
    pub fn impure() -> (r: Refinements)
        ensures
            r@ == (RefinementsModel {
                value: RefinementValueModel::Impure,
                asserts: Seq::empty(),
                bindings: Seq::empty(),
            }),
    {
        Refinements { value: RefinementValue::Impure, asserts: Vec::new(), bindings: Vec::new() }
    }

    /// The term that the expression is, if it is one.
    pub fn get_value(&self) -> (term: Option<TermId>)
        ensures
            term == value_of(self@),
    {
        match &self.value {
            RefinementValue::Pure(term) => Some(*term),
            _ => None,
        }
    }

    /// This, with what has to hold for the other, and with its bindings.
    pub fn combine(self, other: Refinements) -> (r: Refinements)
        ensures
            r@ == combined(self@, other@),
    {
        Refinements {
            value: self.value,
            asserts: concat(&self.asserts, &other.asserts),
            bindings: concat(&self.bindings, &other.bindings),
        }
    }

    /// A statement with what has to hold for all of the list, and with their bindings.
    pub fn combine_all(list: &Vec<Refinements>) -> (r: Refinements)
        ensures
            r@ == combined_all(refinements_of(list@), list@.len() as nat),
    {
        let ghost all = refinements_of(list@);
        let mut r = Refinements { value: RefinementValue::Unit, asserts: Vec::new(), bindings: Vec::new() };
        let mut n: usize = 0;
        while n < list.len()
            invariant
                n <= list@.len(),
                all == refinements_of(list@),
                r@ == combined_all(all, n as nat),
            decreases list@.len() - n,
        {
            assert(all[n as int] == list@[n as int]@);
            r = r.combine(list[n].clone());
            n += 1;
        }
        r
    }

    /// This, under the condition, which has to hold at the place.
    pub fn try_add_assert(self, given: Option<Refinements>, location: Location) -> (r: Refinements)
        ensures
            r@ == asserted(
                self@,
                match given {
                    Some(condition) => Some(condition@),
                    None => None,
                },
                location,
            ),
    {
        match given {
            None => self,
            Some(condition) => match &condition.value {
                RefinementValue::Pure(term) => {
                    let mut asserts = concat(&self.asserts, &condition.asserts);
                    asserts.push((*term, location));
                    Refinements {
                        value: self.value,
                        asserts,
                        bindings: concat(&self.bindings, &condition.bindings),
                    }
                },
                _ => self,
            },
        }
    }

    /// The statement that this pattern is bound to the value.
    pub fn bind_to(self, value: Refinements) -> (r: Refinements)
        ensures
            r@ == bound_to(self@, value@),
    {
        let asserts = concat(&self.asserts, &value.asserts);
        let mut bindings = concat(&self.bindings, &value.bindings);
        match (self.get_value(), value.get_value()) {
            (Some(p), Some(v)) => {
                bindings.push((p, v));
                Refinements { value: RefinementValue::Unit, asserts, bindings }
            },
            _ => Refinements { value: RefinementValue::Impure, asserts, bindings },
        }
    }
}

/// A function that was declared to the solver with its body. It may apply itself.
#[derive(Debug)]
pub struct FunctionDeclaration {
    pub name: String,
    /// The terms that stand for the parameters in the body.
    pub parameters: Vec<TermId>,
    pub domain: Vec<Sort>,
    pub range: Sort,
    pub body: TermId,
}

/// The model of a [`FunctionDeclaration`].
pub struct FunctionModel {
    pub name: Seq<char>,
    pub parameters: Seq<TermId>,
    pub domain: Seq<SortModel>,
    pub range: SortModel,
    pub body: TermId,
}

impl View for FunctionDeclaration {
    type V = FunctionModel;

    open spec fn view(&self) -> FunctionModel {
        FunctionModel {
            name: self.name@,
            parameters: self.parameters@,
            domain: Seq::new(self.domain@.len(), |i: int| self.domain@[i]@),
            range: self.range@,
            body: self.body,
        }
    }
}

/// The terms and the functions that were made, and what is known of the definitions that
/// were encoded.
pub struct TermTable {
    pub terms: Vec<SolverTerm>,
    pub functions: Vec<FunctionDeclaration>,
    /// What is known of each definition that was met, by the number of the definition.
    pub values: HashMap<usize, Refinements>,
}

/// The model of a [`TermTable`].
pub struct TableModel {
    pub terms: Seq<SolverTermModel>,
    pub functions: Seq<FunctionModel>,
    pub values: Map<usize, RefinementsModel>,
}

impl View for TermTable {
    type V = TableModel;

    open spec fn view(&self) -> TableModel {
        TableModel {
            terms: Seq::new(self.terms@.len(), |i: int| self.terms@[i]@),
            functions: Seq::new(self.functions@.len(), |i: int| self.functions@[i]@),
            values: values_of(self.values@),
        }
    }
}

/// The models of what is known of the definitions.
pub open spec fn values_of(values: Map<usize, Refinements>) -> Map<usize, RefinementsModel> {
    Map::new(|id: usize| values.contains_key(id), |id: usize| values[id]@)
}

/// What is known of one definition more is so in the model.
pub proof fn lemma_values_insert(values: Map<usize, Refinements>, id: usize, r: Refinements)
    ensures
        values_of(values.insert(id, r)) == values_of(values).insert(id, r@),
{
    assert(values_of(values.insert(id, r)) =~= values_of(values).insert(id, r@));
}

/// What is known of the definition.
pub open spec fn known_of(values: Map<usize, RefinementsModel>, id: DefinitionInfoId) -> Option<RefinementsModel> {
    if values.contains_key(id.0) {
        Some(values[id.0])
    } else {
        None
    }
}

/// The table with the refinements noted for the definition, unless something is known of
/// it already.
pub open spec fn with_definition(table: TableModel, id: DefinitionInfoId, r: RefinementsModel) -> TableModel {
    if table.values.contains_key(id.0) {
        table
    } else {
        TableModel { values: table.values.insert(id.0, r), ..table }
    }
}

/// What is known of the definitions with the binding put before what is known of the
/// definition, if anything is.
pub open spec fn with_binding(values: Map<usize, RefinementsModel>, id: DefinitionInfoId, binding: RefinementsModel) -> Map<
    usize,
    RefinementsModel,
> {
    if values.contains_key(id.0) {
        values.insert(id.0, combined(binding, values[id.0]))
    } else {
        values
    }
}

impl TermTable {
    /// A table without terms.
    pub fn new() -> (table: TermTable)
        ensures
            table@ == (TableModel { terms: Seq::empty(), functions: Seq::empty(), values: Map::empty() }),
    {
        let table = TermTable { terms: Vec::new(), functions: Vec::new(), values: HashMap::new() };
        assert(table@.terms =~= Seq::empty());
        assert(table@.functions =~= Seq::empty());
        assert(table@.values =~= Map::empty());
        table
    }

    /// Puts the term in the table and returns its place.
    pub fn push_term(&mut self, term: SolverTerm) -> (id: TermId)
        ensures
            id.0 == old(self)@.terms.len(),
            final(self)@ == (TableModel { terms: old(self)@.terms.push(term@), ..old(self)@ }),
    {
        let id = TermId(self.terms.len());
        self.terms.push(term);
        assert(self@.terms =~= old(self)@.terms.push(term@));
        assert(self@.functions =~= old(self)@.functions);
        assert(self@.values =~= old(self)@.values);
        id
    }

    /// The sort of the term.
    pub fn get_sort(&self, id: TermId) -> (result: Result<Sort, Fault>)
        ensures
            match result {
                Ok(sort) => id.0 < self@.terms.len() && sort@ == sort_of_term(self@.terms[id.0 as int]),
                Err(fault) => id.0 >= self@.terms.len() && fault == Fault::UnknownDefinition(id.0),
            },
    {
        if id.0 >= self.terms.len() {
            return Err(Fault::UnknownDefinition(id.0));
        }
        assert(self@.terms[id.0 as int] == self.terms@[id.0 as int]@);
        Ok(
            match &self.terms[id.0] {
                SolverTerm::Bool(_) => Sort::Bool,
                SolverTerm::Integer(_, _) => Sort::Int,
                SolverTerm::Float(_) => Sort::Real,
                SolverTerm::Text(_) => Sort::Text,
                SolverTerm::Constant(_, sort) => sort.clone(),
                SolverTerm::Hidden(_, sort) => sort.clone(),
                SolverTerm::Apply(_, _, sort) => sort.clone(),
                SolverTerm::Operation(operator, _, _) => match operator {
                    Operator::Add => Sort::Int,
                    Operator::Subtract => Sort::Int,
                    Operator::Multiply => Sort::Int,
                    Operator::Divide => Sort::Int,
                    _ => Sort::Bool,
                },
            },
        )
    }

    /// Declares the function.
    pub fn declare_function(&mut self, declaration: FunctionDeclaration)
        ensures
            final(self)@ == (TableModel { functions: old(self)@.functions.push(declaration@), ..old(self)@ }),
    {
        self.functions.push(declaration);
        assert(self@.terms =~= old(self)@.terms);
        assert(self@.functions =~= old(self)@.functions.push(declaration@));
        assert(self@.values =~= old(self)@.values);
    }

    /// What is known of the definition.
    pub fn definition(&self, id: DefinitionInfoId) -> (found: Option<Refinements>)
        ensures
            match known_of(self@.values, id) {
                Some(r) => found matches Some(f) && f@ == r,
                None => found.is_none(),
            },
    {
        match self.values.get(&id.0) {
            Some(known) => Some(known.clone()),
            None => None,
        }
    }

    /// Notes what is known of the definition, unless something is known of it already.
    pub fn add_definition(&mut self, id: DefinitionInfoId, refinements: Refinements)
        ensures
            final(self)@ == with_definition(old(self)@, id, refinements@),
    {
        if !self.values.contains_key(&id.0) {
            proof {
                lemma_values_insert(self.values@, id.0, refinements);
            }
            self.values.insert(id.0, refinements);
            assert(self@.terms =~= old(self)@.terms);
            assert(self@.functions =~= old(self)@.functions);
        }
    }

    /// Puts the binding before what is known of the definition, if anything is.
    pub fn bind_definition(&mut self, id: DefinitionInfoId, binding: &Refinements)
        ensures
            final(self)@ == (TableModel { values: with_binding(old(self)@.values, id, binding@), ..old(self)@ }),
    {
        let known = match self.values.get(&id.0) {
            Some(entry) => Some(entry.clone()),
            None => None,
        };
        match known {
            Some(entry) => {
                let changed = binding.clone().combine(entry);
                proof {
                    lemma_values_insert(self.values@, id.0, changed);
                }
                self.values.insert(id.0, changed);
                assert(self@.terms =~= old(self)@.terms);
                assert(self@.functions =~= old(self)@.functions);
            },
            None => {},
        }
    }
}

} // verus!
