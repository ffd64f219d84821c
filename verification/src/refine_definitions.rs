//! The encoding of definitions for the solver: which operation of the solver a definition
//! of the prelude stands for, and what is to be done with a definition when it is met.
use vstd::prelude::*;
use vstd::string::StringExecFns;
use crate::cache::{DefinitionInfo, DefinitionKind, ModuleCache};
use crate::error::Fault;
use crate::infer_state::{decimal, decimal_text};
use crate::refine_terms::{
    combined, combined_all, asserted, known_of, operator_sort, refinements_of, sort_of_term, value_of, with_binding,
    with_definition, Callee, CalleeModel, FunctionDeclaration, FunctionModel, Operator, RefinementValue,
    RefinementValueModel, Refinements, RefinementsModel, SolverTerm, SolverTermModel, TableModel, TermId,
};
use crate::refine::with_term;
use crate::error::Location;
use crate::refine::{sort_of, Encoding, RefinementContext, Sort, SortModel};
use crate::types::{AstId, DefinitionInfoId, PrimitiveType, Term, Type};
use crate::unify::{follow, follow_bindings_in_cache, RECURSION_LIMIT};

verus! {

/// The operation that an operator of the language stands for.
pub open spec fn operator_named(name: Seq<char>) -> Option<Operator> {
    if name == "+"@ {
        Some(Operator::Add)
    } else if name == "-"@ {
        Some(Operator::Subtract)
    } else if name == "*"@ {
        Some(Operator::Multiply)
    } else if name == "/"@ {
        Some(Operator::Divide)
    } else if name == "<"@ {
        Some(Operator::LessThan)
    } else if name == "<="@ {
        Some(Operator::LessThanOrEqual)
    } else if name == ">"@ {
        Some(Operator::GreaterThan)
    } else if name == ">="@ {
        Some(Operator::GreaterThanOrEqual)
    } else if name == "=="@ {
        Some(Operator::Equal)
    } else if name == "!="@ {
        Some(Operator::Distinct)
    } else {
        None
    }
}

/// The operation that an operator of the language stands for.
pub fn operator_of(name: &String) -> (operator: Option<Operator>)
    ensures
        operator == operator_named(name@),
{
    if *name == String::from_str("+") {
        Some(Operator::Add)
    } else if *name == String::from_str("-") {
        Some(Operator::Subtract)
    } else if *name == String::from_str("*") {
        Some(Operator::Multiply)
    } else if *name == String::from_str("/") {
        Some(Operator::Divide)
    } else if *name == String::from_str("<") {
        Some(Operator::LessThan)
    } else if *name == String::from_str("<=") {
        Some(Operator::LessThanOrEqual)
    } else if *name == String::from_str(">") {
        Some(Operator::GreaterThan)
    } else if *name == String::from_str(">=") {
        Some(Operator::GreaterThanOrEqual)
    } else if *name == String::from_str("==") {
        Some(Operator::Equal)
    } else if *name == String::from_str("!=") {
        Some(Operator::Distinct)
    } else {
        None
    }
}

/// The names of the two parameters of the function that is declared for the operation.
/// No two operations share a name, as the solver knows a constant by its name.
pub open spec fn parameter_names(operator: Operator) -> (Seq<char>, Seq<char>) {
    match operator {
        Operator::Add => ("a"@, "b"@),
        Operator::Subtract => ("c"@, "d"@),
        Operator::Multiply => ("e"@, "f"@),
        Operator::Divide => ("g"@, "h"@),
        Operator::LessThan => ("i"@, "j"@),
        Operator::LessThanOrEqual => ("k"@, "l"@),
        Operator::GreaterThan => ("m"@, "n"@),
        Operator::GreaterThanOrEqual => ("o"@, "p"@),
        Operator::Equal => ("q"@, "r"@),
        Operator::Distinct => ("s"@, "t"@),
    }
}

/// The names of the two parameters of the function that is declared for the operation.
pub fn operator_parameters(operator: Operator) -> (names: (&'static str, &'static str))
    ensures
        (names.0@, names.1@) == parameter_names(operator),
{
    match operator {
        Operator::Add => ("a", "b"),
        Operator::Subtract => ("c", "d"),
        Operator::Multiply => ("e", "f"),
        Operator::Divide => ("g", "h"),
        Operator::LessThan => ("i", "j"),
        Operator::LessThanOrEqual => ("k", "l"),
        Operator::GreaterThan => ("m", "n"),
        Operator::GreaterThanOrEqual => ("o", "p"),
        Operator::Equal => ("q", "r"),
        Operator::Distinct => ("s", "t"),
    }
}

/// The function that is declared to the solver for an operator on integers: its name, its
/// two parameters, and the operation that its body applies to them.
#[derive(Debug)]
pub struct BuiltinFunction {
    pub name: String,
    pub first: String,
    pub second: String,
    pub operator: Operator,
}

/// The model of a [`BuiltinFunction`].
pub struct BuiltinModel {
    pub name: Seq<char>,
    pub first: Seq<char>,
    pub second: Seq<char>,
    pub operator: Operator,
}

impl View for BuiltinFunction {
    type V = BuiltinModel;

    open spec fn view(&self) -> BuiltinModel {
        BuiltinModel { name: self.name@, first: self.first@, second: self.second@, operator: self.operator }
    }
}

/// Is the type that of a function of two integers?
pub open spec fn takes_two_integers(t: Term) -> bool {
    t matches Term::Function(parameters, _, _, _) && parameters.len() == 2 && (parameters[0] matches Term::Primitive(
        PrimitiveType::IntegerType(_),
    )) && (parameters[1] matches Term::Primitive(PrimitiveType::IntegerType(_)))
}

/// The name under which a definition is known to the solver: its name and its number.
pub open spec fn solver_name(name: Seq<char>, id: DefinitionInfoId) -> Seq<char> {
    name + "$"@ + decimal(id.0 as nat)
}

/// The function of the solver that the definition stands for, if it is an operator on two
/// integers that the solver knows.
pub open spec fn builtin_of(id: DefinitionInfoId, name: Seq<char>, t: Term) -> Option<BuiltinModel> {
    if takes_two_integers(t) {
        match operator_named(name) {
            None => None,
            Some(operator) => Some(
                BuiltinModel {
                    name: solver_name(name, id),
                    first: parameter_names(operator).0,
                    second: parameter_names(operator).1,
                    operator,
                },
            ),
        }
    } else {
        None
    }
}

/// What is to be done with a definition that is met.
#[derive(Debug)]
pub enum Step {
    /// This is known of the definition.
    Done(Refinements),
    /// The node of the definition is to be encoded, and what it gives is the value of the
    /// constant that stands for the definition.
    Body(AstId, TermId),
}

/// The model of a [`Step`].
pub enum StepModel {
    Done(RefinementsModel),
    Body(AstId, TermId),
}

impl View for Step {
    type V = StepModel;

    open spec fn view(&self) -> StepModel {
        match self {
            Step::Done(r) => StepModel::Done(r@),
            Step::Body(node, constant) => StepModel::Body(*node, *constant),
        }
    }
}

/// What is known of nothing but a value.
pub open spec fn only(value: RefinementValueModel) -> RefinementsModel {
    RefinementsModel { value, asserts: Seq::empty(), bindings: Seq::empty() }
}

/// What is declared once the function of an operator is declared, and what is known of
/// the function: two constants for its parameters, the operation on them for its body.
pub open spec fn builtin_made(e: Encoding, function: BuiltinModel) -> (RefinementsModel, Encoding) {
    let a = TermId(e.table.terms.len() as usize);
    let b = TermId((e.table.terms.len() + 1) as usize);
    let body = TermId((e.table.terms.len() + 2) as usize);
    let terms = e.table.terms.push(SolverTermModel::Constant(function.first, SortModel::Int)).push(
        SolverTermModel::Constant(function.second, SortModel::Int),
    ).push(SolverTermModel::Operation(function.operator, a, b));
    let declaration = FunctionModel {
        name: function.name,
        parameters: seq![a, b],
        domain: seq![SortModel::Int, SortModel::Int],
        range: operator_sort(function.operator),
        body,
    };
    (
        only(RefinementValueModel::Function(CalleeModel::Declared(function.name), seq![a, b])),
        Encoding {
            table: TableModel { terms, functions: e.table.functions.push(declaration), ..e.table },
            ..e
        },
    )
}

/// What is to be done with the definition, met at the type, and what is declared after.
/// What is known of a definition that was met before is known still. An operator on
/// integers is a function of the solver. For any other definition its type is encoded,
/// and a constant is made to stand for the definition before anything of it is encoded, so
/// that a definition that refers to itself is not encoded without end.
pub open spec fn refine_step(id: DefinitionInfoId, t: Term, e: Encoding, cache: &ModuleCache) -> (
    Result<StepModel, Fault>,
    Encoding,
) {
    match known_of(e.table.values, id) {
        Some(known) => (Ok(StepModel::Done(known)), e),
        None => if id.0 >= cache.definition_infos@.len() {
            (Err(Fault::UnknownDefinition(id.0)), e)
        } else {
            let info = cache.definition_infos@[id.0 as int];
            match follow(t, Map::empty(), cache.store(), RECURSION_LIMIT as nat) {
                Err(fault) => (Err(fault), e),
                Ok(followed) => match builtin_of(id, info.name@, followed) {
                    Some(function) => if e.table.terms.len() + 2 >= usize::MAX {
                        (Err(Fault::OutOfIds), e)
                    } else {
                        (Ok(StepModel::Done(builtin_made(e, function).0)), builtin_made(e, function).1)
                    },
                    None => {
                        let (encoded, e1) = sort_of(followed, e, cache, RECURSION_LIMIT as nat);
                        match encoded {
                            Err(fault) => (Err(fault), e),
                            Ok(sort) => {
                                let constant = TermId(e1.table.terms.len() as usize);
                                let placeholder = only(RefinementValueModel::Pure(constant));
                                let e2 = with_term(e1, SolverTermModel::Constant(solver_name(info.name@, id), sort));
                                let e3 = Encoding { table: with_definition(e2.table, id, placeholder), ..e2 };
                                match info.definition {
                                    Some(DefinitionKind::Definition(node)) => (Ok(StepModel::Body(node, constant)), e3),
                                    Some(DefinitionKind::TypeConstructor(_)) => match known_of(e3.table.values, id) {
                                        Some(known) => (Ok(StepModel::Done(known)), e3),
                                        None => (Err(Fault::Malformed), e),
                                    },
                                    Some(DefinitionKind::Extern(_)) => (
                                        Ok(StepModel::Done(only(RefinementValueModel::Impure))),
                                        e3,
                                    ),
                                    Some(_) => (Ok(StepModel::Done(placeholder)), e3),
                                    None => (Err(Fault::Malformed), e),
                                }
                            },
                        }
                    },
                },
            }
        },
    }
}

/// The entries after the binding was put before what is known of each of the first `n`
/// definitions.
pub open spec fn bound_all(
    values: Map<usize, RefinementsModel>,
    definitions: Seq<DefinitionInfoId>,
    n: nat,
    binding: RefinementsModel,
) -> Map<usize, RefinementsModel>
    decreases n,
{
    if n == 0 || n > definitions.len() {
        values
    } else {
        let before = bound_all(values, definitions, (n - 1) as nat, binding);
        with_binding(before, definitions[n - 1], binding)
    }
}

/// The terms of the first `n` parameters, if each of them is a term.
pub open spec fn parameter_values(parameters: Seq<RefinementsModel>, n: nat) -> Option<Seq<TermId>>
    decreases n,
{
    if n == 0 || n > parameters.len() {
        Some(Seq::empty())
    } else {
        match (parameter_values(parameters, (n - 1) as nat), value_of(parameters[n - 1])) {
            (Some(before), Some(term)) => Some(before.push(term)),
            _ => None,
        }
    }
}

/// The sorts of the first `n` terms, if each of them is in the table.
pub open spec fn sorts_of_terms(table: TableModel, terms: Seq<TermId>, n: nat) -> Option<Seq<SortModel>>
    decreases n,
{
    if n == 0 || n > terms.len() {
        Some(Seq::empty())
    } else {
        match sorts_of_terms(table, terms, (n - 1) as nat) {
            Some(before) => if terms[n - 1].0 < table.terms.len() {
                Some(before.push(sort_of_term(table.terms[terms[n - 1].0 as int])))
            } else {
                None
            },
            None => None,
        }
    }
}

/// What is known of a function that is defined, and what is declared after. A function
/// with a body that is a term is declared to the solver, with the sorts of its parameters
/// for its domain and the sort of its body for its range; the condition that it is given
/// has to hold where the function is used. A function with another body is what its body
/// is.
pub open spec fn function_defined(
    e: Encoding,
    name: Seq<char>,
    parameters: Seq<RefinementsModel>,
    given: Option<RefinementsModel>,
    body: RefinementsModel,
    location: Location,
) -> (Result<RefinementsModel, Fault>, Encoding) {
    match body.value {
        RefinementValueModel::Pure(body_value) => if body_value.0 >= e.table.terms.len() {
            (Err(Fault::UnknownDefinition(body_value.0)), e)
        } else {
            match parameter_values(parameters, parameters.len()) {
                None => (Err(Fault::Malformed), e),
                Some(values) => match sorts_of_terms(e.table, values, values.len()) {
                    None => (Err(Fault::Malformed), e),
                    Some(domain) => {
                        let declaration = FunctionModel {
                            name,
                            parameters: values,
                            domain,
                            range: sort_of_term(e.table.terms[body_value.0 as int]),
                            body: body_value,
                        };
                        (
                            Ok(
                                asserted(
                                    combined(
                                        combined(
                                            only(
                                                RefinementValueModel::Function(CalleeModel::Declared(name), values),
                                            ),
                                            combined_all(parameters, parameters.len()),
                                        ),
                                        body,
                                    ),
                                    given,
                                    location,
                                ),
                            ),
                            Encoding {
                                table: TableModel { functions: e.table.functions.push(declaration), ..e.table },
                                ..e
                            },
                        )
                    },
                },
            }
        },
        _ => (Ok(body), e),
    }
}

impl RefinementContext {
    /// The function of the solver that the definition stands for, if it is an operator on
    /// two integers that the solver knows.
    pub fn check_builtin(&self, id: DefinitionInfoId, definition: &DefinitionInfo, typ: &Type) -> (found: Option<
        BuiltinFunction,
    >)
        ensures
            match builtin_of(id, definition.name@, typ@) {
                Some(function) => found matches Some(f) && f@ == function,
                None => found.is_none(),
            },
    {
        let args = match typ {
            Type::Function(function) => {
                assert(typ@ == Term::Function(
                    crate::types::terms_of(function.parameters@),
                    Box::new(function.return_type@),
                    Box::new(function.environment@),
                    function.is_varargs,
                ));
                &function.parameters
            },
            _ => {
                return None;
            },
        };
        if args.len() != 2 {
            return None;
        }
        assert(crate::types::terms_of(args@)[0] == args@[0]@);
        assert(crate::types::terms_of(args@)[1] == args@[1]@);
        match (&args[0], &args[1]) {
            (Type::Primitive(PrimitiveType::IntegerType(_)), Type::Primitive(PrimitiveType::IntegerType(_))) => {
                match operator_of(&definition.name) {
                    None => None,
                    Some(operator) => {
                        let name = definition.name.clone().concat("$").concat(decimal_text(id.0 as u64).as_str());
                        let (first, second) = operator_parameters(operator);
                        Some(
                            BuiltinFunction {
                                name,
                                first: String::from_str(first),
                                second: String::from_str(second),
                                operator,
                            },
                        )
                    },
                }
            },
            _ => None,
        }
    }

    /// Declares the function of an operator on integers.
    pub fn make_builtin(&mut self, function: BuiltinFunction) -> (r: Refinements)
        requires
            old(self)@.table.terms.len() + 2 < usize::MAX,
        ensures
            r@ == builtin_made(old(self)@, function@).0,
            final(self)@ == builtin_made(old(self)@, function@).1,
    {
        let ghost start = self@;
        let a = self.table.push_term(SolverTerm::Constant(function.first, Sort::Int));
        let b = self.table.push_term(SolverTerm::Constant(function.second, Sort::Int));
        let body = self.table.push_term(SolverTerm::Operation(function.operator, a, b));
        let range = match function.operator {
            Operator::Add => Sort::Int,
            Operator::Subtract => Sort::Int,
            Operator::Multiply => Sort::Int,
            Operator::Divide => Sort::Int,
            _ => Sort::Bool,
        };
        let mut parameters: Vec<TermId> = Vec::new();
        parameters.push(a);
        parameters.push(b);
        let mut domain: Vec<Sort> = Vec::new();
        domain.push(Sort::Int);
        domain.push(Sort::Int);
        let declaration = FunctionDeclaration {
            name: function.name.clone(),
            parameters: crate::refine_terms::copy_list(&parameters),
            domain,
            range,
            body,
        };
        proof {
            assert(parameters@ =~= seq![a, b]);
            assert(declaration@.domain =~= seq![SortModel::Int, SortModel::Int]);
        }
        self.table.declare_function(declaration);
        proof {
            assert(self@.types =~= start.types);
            assert(self@.datatypes =~= start.datatypes);
        }
        Refinements::function(Callee::Declared(function.name), parameters)
    }

    /// Says what is to be done with the definition that is met at the type, and declares
    /// what its type is made of.
    pub fn refine_definition(&mut self, id: DefinitionInfoId, typ: &Type, cache: &ModuleCache) -> (result: Result<
        Step,
        Fault,
    >)
        ensures
            ({
                let expected = refine_step(id, typ@, old(self)@, cache);
                match expected.0 {
                    Ok(step) => result matches Ok(found) && found@ == step && final(self)@ == expected.1,
                    Err(fault) => result matches Err(f) && f == fault,
                }
            }),
    {
        match self.table.definition(id) {
            Some(known) => {
                return Ok(Step::Done(known));
            },
            None => {},
        }
        if id.0 >= cache.definition_infos.len() {
            return Err(Fault::UnknownDefinition(id.0));
        }
        let info = &cache.definition_infos[id.0];
        let typ = match follow_bindings_in_cache(typ, cache) {
            Err(fault) => {
                return Err(fault);
            },
            Ok(typ) => typ,
        };
        match self.check_builtin(id, info, &typ) {
            Some(function) => {
                if self.table.terms.len() >= usize::MAX - 2 {
                    return Err(Fault::OutOfIds);
                }
                assert(self@.table.terms.len() == self.table.terms@.len());
                return Ok(Step::Done(self.make_builtin(function)));
            },
            None => {},
        }
        // A constant is made to stand for the definition before anything of it is
        // encoded: a definition that refers to itself would be encoded without end else.
        let sort = match self.type_to_sort(&typ, cache, RECURSION_LIMIT) {
            Err(fault) => {
                return Err(fault);
            },
            Ok(sort) => sort,
        };
        let name = info.name.clone().concat("$").concat(decimal_text(id.0 as u64).as_str());
        let variable = self.variable(name.as_str(), sort);
        let refinements = Refinements::from_value(variable);
        self.add_definition(id, refinements.clone());
        match info.definition {
            Some(DefinitionKind::Definition(node)) => Ok(Step::Body(node, variable)),
            Some(DefinitionKind::TypeConstructor(_)) => match self.table.definition(id) {
                Some(known) => Ok(Step::Done(known)),
                None => Err(Fault::Malformed),
            },
            Some(DefinitionKind::Extern(_)) => Ok(Step::Done(Refinements::impure())),
            Some(DefinitionKind::TraitDefinition(_)) => Ok(Step::Done(refinements)),
            Some(DefinitionKind::Parameter) => Ok(Step::Done(refinements)),
            Some(DefinitionKind::MatchPattern) => Ok(Step::Done(refinements)),
            None => Err(Fault::Malformed),
        }
    }

    /// Binds the pattern to the value: what is known of each of the definitions of the
    /// pattern comes after the statement that the two are the same.
    pub fn bind(&mut self, definitions: &Vec<DefinitionInfoId>, pattern: Refinements, value: Refinements)
        ensures
            final(self)@ == (Encoding {
                table: TableModel {
                    values: bound_all(
                        old(self)@.table.values,
                        definitions@,
                        definitions@.len() as nat,
                        crate::refine_terms::bound_to(pattern@, value@),
                    ),
                    ..old(self)@.table
                },
                ..old(self)@
            }),
    {
        let binding = pattern.bind_to(value);
        let mut n: usize = 0;
        proof {
            assert(self@.table.values =~= bound_all(old(self)@.table.values, definitions@, 0, binding@));
        }
        while n < definitions.len()
            invariant
                n <= definitions@.len(),
                self@ == (Encoding {
                    table: TableModel {
                        values: bound_all(old(self)@.table.values, definitions@, n as nat, binding@),
                        ..old(self)@.table
                    },
                    ..old(self)@
                }),
            decreases definitions@.len() - n,
        {
            let ghost before = self@;
            self.table.bind_definition(definitions[n], &binding);
            proof {
                assert(self@.types =~= before.types);
                assert(self@.datatypes =~= before.datatypes);
            }
            n += 1;
        }
    }

    /// Defines a function: declares it to the solver where its body is a term.
    pub fn define_function(
        &mut self,
        name: &str,
        parameters: Vec<Refinements>,
        given_clause: Option<Refinements>,
        body: Refinements,
        location: Location,
    ) -> (result: Result<Refinements, Fault>)
        ensures
            ({
                let expected = function_defined(
                    old(self)@,
                    name@,
                    refinements_of(parameters@),
                    match given_clause {
                        Some(condition) => Some(condition@),
                        None => None,
                    },
                    body@,
                    location,
                );
                match expected.0 {
                    Ok(r) => result matches Ok(found) && found@ == r && final(self)@ == expected.1,
                    Err(fault) => result matches Err(f) && f == fault,
                }
            }),
    {
        let body_value = match &body.value {
            RefinementValue::Pure(body_value) => *body_value,
            _ => {
                proof {
                    assert(self@.types =~= old(self)@.types);
                }
                return Ok(body);
            },
        };
        let range = match self.table.get_sort(body_value) {
            Err(fault) => {
                return Err(fault);
            },
            Ok(range) => range,
        };
        let ghost all = refinements_of(parameters@);
        let ghost table = self@.table;
        let mut values: Vec<TermId> = Vec::new();
        let mut n: usize = 0;
        while n < parameters.len()
            invariant
                n <= parameters@.len(),
                all == refinements_of(parameters@),
                parameter_values(all, n as nat) == Some(values@),
                *self == *old(self),
                body@.value == RefinementValueModel::Pure(body_value),
                body_value.0 < old(self)@.table.terms.len(),
            decreases parameters@.len() - n,
        {
            assert(all[n as int] == parameters@[n as int]@);
            match parameters[n].get_value() {
                None => {
                    proof {
                        lemma_parameter_values_none(all, (n + 1) as nat, parameters@.len() as nat);
                    }
                    return Err(Fault::Malformed);
                },
                Some(value) => {
                    values.push(value);
                },
            }
            n += 1;
        }
        let mut domain: Vec<Sort> = Vec::new();
        let mut n: usize = 0;
        while n < values.len()
            invariant
                n <= values@.len(),
                table == self@.table,
                *self == *old(self),
                all == refinements_of(parameters@),
                parameter_values(all, all.len()) == Some(values@),
                body@.value == RefinementValueModel::Pure(body_value),
                body_value.0 < old(self)@.table.terms.len(),
                sorts_of_terms(table, values@, n as nat) == Some(Seq::new(domain@.len(), |i: int| domain@[i]@)),
            decreases values@.len() - n,
        {
            let ghost before = Seq::new(domain@.len(), |i: int| domain@[i]@);
            match self.table.get_sort(values[n]) {
                Err(_) => {
                    proof {
                        lemma_sorts_of_terms_none(table, values@, (n + 1) as nat, values@.len() as nat);
                    }
                    return Err(Fault::Malformed);
                },
                Ok(sort) => {
                    domain.push(sort);
                    assert(Seq::new(domain@.len(), |i: int| domain@[i]@) =~= before.push(sort@));
                },
            }
            n += 1;
        }
        let params = Refinements::combine_all(&parameters);
        let declaration = FunctionDeclaration {
            name: String::from_str(name),
            parameters: crate::refine_terms::copy_list(&values),
            domain,
            range,
            body: body_value,
        };
        self.table.declare_function(declaration);
        proof {
            assert(self@.types =~= old(self)@.types);
            assert(self@.datatypes =~= old(self)@.datatypes);
        }
        Ok(
            Refinements::function(Callee::Declared(String::from_str(name)), values).combine(params).combine(
                body,
            ).try_add_assert(given_clause, location),
        )
    }
}

/// Where one of the first `n` parameters is no term, the parameters are not all terms.
pub proof fn lemma_parameter_values_none(parameters: Seq<RefinementsModel>, n: nat, m: nat)
    requires
        n <= m <= parameters.len(),
        parameter_values(parameters, n) is None,
    ensures
        parameter_values(parameters, m) is None,
    decreases m - n,
{
    if n < m {
        lemma_parameter_values_none(parameters, n, (m - 1) as nat);
    }
}

/// Where one of the first `n` terms is not in the table, the terms are not all in it.
pub proof fn lemma_sorts_of_terms_none(table: TableModel, terms: Seq<TermId>, n: nat, m: nat)
    requires
        n <= m <= terms.len(),
        sorts_of_terms(table, terms, n) is None,
    ensures
        sorts_of_terms(table, terms, m) is None,
    decreases m - n,
{
    if n < m {
        lemma_sorts_of_terms_none(table, terms, n, (m - 1) as nat);
    }
}

} // verus!
