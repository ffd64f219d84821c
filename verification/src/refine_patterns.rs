//! The encoding of patterns for the solver: a constant stands for each variable of a
//! pattern, and a pattern that is built by a constructor is the constructor applied to what
//! stands for its parts.
use vstd::prelude::*;
use vstd::string::StringExecFns;
use crate::ast::{LiteralKind, NodeKind, Program};
use crate::cache::ModuleCache;
use crate::error::{Fault, Location};
use crate::infer_state::decimal_text;
use crate::refine::{sort_of, Encoding, RefinementContext};
use crate::refine_definitions::{only, refine_step, solver_name, Step, StepModel};
use crate::refine_terms::{
    concat, value_of, with_definition, RefinementValue, RefinementValueModel, Refinements,
    RefinementsModel, SolverTerm, SolverTermModel, TermId,
};
use crate::refine::with_term;
use crate::refine_values::{hidden, last_term};
use crate::types::{AstId, DefinitionInfoId, IntegerKind};
use crate::unify::RECURSION_LIMIT;

verus! {

/// Is an integer of the kind signed? One without a suffix is, as the default kind is.
pub open spec fn is_signed(kind: IntegerKind) -> bool {
    match kind {
        IntegerKind::U8 => false,
        IntegerKind::U16 => false,
        IntegerKind::U32 => false,
        IntegerKind::U64 => false,
        IntegerKind::Usz => false,
        _ => true,
    }
}

/// The term that a literal is. A character is its number, and unit is the one value of
/// the booleans that it is encoded by.
pub open spec fn literal_term(kind: LiteralKind) -> SolverTermModel {
    match kind {
        LiteralKind::Integer(n, kind) => SolverTermModel::Integer(n, is_signed(kind)),
        LiteralKind::Float(bits) => SolverTermModel::Float(bits),
        LiteralKind::String(text) => SolverTermModel::Text(text@),
        LiteralKind::Char(c) => SolverTermModel::Integer(c as u64, false),
        LiteralKind::Bool(b) => SolverTermModel::Bool(b),
        LiteralKind::Unit => SolverTermModel::Bool(true),
    }
}

/// What the parts of a pattern are: their terms, the definitions in them, what has to
/// hold for them, and their bindings.
pub type Parts = (Seq<TermId>, Seq<DefinitionInfoId>, Seq<(TermId, Location)>, Seq<(TermId, TermId)>);

/// What is known of a pattern, with the definitions that it binds, and what is declared
/// after. A literal is its value. A variable is a constant of its name and its number, of
/// the sort of its type, which stands for its definition from then on. A call is the
/// function applied to what its arguments are, where the function is one that the solver
/// knows, and a hidden constant else.
pub open spec fn pattern_refined(program: Program, pattern: AstId, e: Encoding, cache: &ModuleCache, fuel: nat) -> (
    Result<(RefinementsModel, Seq<DefinitionInfoId>), Fault>,
    Encoding,
)
    decreases fuel, 1nat, 0nat,
{
    if fuel == 0 {
        (Err(Fault::RecursionLimit), e)
    } else if !program.has(pattern) {
        (Err(Fault::Malformed), e)
    } else {
        match program.node(pattern).kind {
            NodeKind::Literal(kind) => (Ok((last_term(e), Seq::empty())), with_term(e, literal_term(kind))),
            NodeKind::Variable(variable) => match (variable.definition, program.node(pattern).typ) {
                (Some(id), Some(typ)) => {
                    let (encoded, e1) = sort_of(typ@, e, cache, RECURSION_LIMIT as nat);
                    match encoded {
                        Err(fault) => (Err(fault), e),
                        Ok(sort) => {
                            let r = last_term(e1);
                            let e2 = with_term(e1, SolverTermModel::Constant(solver_name(variable.name@, id), sort));
                            (Ok((r, seq![id])), Encoding { table: with_definition(e2.table, id, r), ..e2 })
                        },
                    }
                },
                _ => (Err(Fault::Malformed), e),
            },
            NodeKind::TypeAnnotation(lhs, _) => pattern_refined(program, lhs, e, cache, (fuel - 1) as nat),
            NodeKind::FunctionCall(function, args) => {
                let (parts, e1) = patterns_refined(program, args@, 0, e, cache, (fuel - 1) as nat);
                match parts {
                    Err(fault) => (Err(fault), e),
                    Ok((values, ids, asserts, bindings)) => if !program.has(function) {
                        (Err(Fault::Malformed), e)
                    } else {
                        match (program.node(function).kind, program.node(function).typ, program.node(pattern).typ) {
                            (NodeKind::Variable(variable), Some(function_type), Some(typ)) => match variable.definition {
                                None => (Err(Fault::Malformed), e),
                                Some(id) => {
                                    let (step, e2) = refine_step(id, function_type@, e1, cache);
                                    match step {
                                        Err(fault) => (Err(fault), e),
                                        Ok(found) => {
                                            let f = match found {
                                                StepModel::Done(r) => r,
                                                StepModel::Body(_, constant) => only(
                                                    RefinementValueModel::Pure(constant),
                                                ),
                                            };
                                            let (value, e3) = match f.value {
                                                RefinementValueModel::Function(callee, _) => {
                                                    let (encoded, e3) = sort_of(typ@, e2, cache, RECURSION_LIMIT as nat);
                                                    match encoded {
                                                        Err(fault) => (Err(fault), e),
                                                        Ok(sort) => (
                                                            Ok(TermId(e3.table.terms.len() as usize)),
                                                            with_term(e3, SolverTermModel::Apply(callee, values, sort)),
                                                        ),
                                                    }
                                                },
                                                _ => hidden(typ@, e2, cache),
                                            };
                                            match value {
                                                Err(fault) => (Err(fault), e),
                                                Ok(term) => (
                                                    Ok(
                                                        (
                                                            RefinementsModel {
                                                                value: RefinementValueModel::Pure(term),
                                                                asserts: asserts + f.asserts,
                                                                bindings: bindings + f.bindings,
                                                            },
                                                            ids,
                                                        ),
                                                    ),
                                                    e3,
                                                ),
                                            }
                                        },
                                    }
                                },
                            },
                            _ => (Err(Fault::Malformed), e),
                        }
                    },
                }
            },
            _ => (Err(Fault::Malformed), e),
        }
    }
}

/// What the patterns from position `at` on are, each encoded in turn, and what is
/// declared after. Each of them has to be a term.
pub open spec fn patterns_refined(
    program: Program,
    patterns: Seq<AstId>,
    at: nat,
    e: Encoding,
    cache: &ModuleCache,
    fuel: nat,
) -> (Result<Parts, Fault>, Encoding)
    decreases fuel, 2nat, patterns.len() - at,
{
    if at >= patterns.len() {
        (Ok((Seq::empty(), Seq::empty(), Seq::empty(), Seq::empty())), e)
    } else {
        let (first, e1) = pattern_refined(program, patterns[at as int], e, cache, fuel);
        match first {
            Err(fault) => (Err(fault), e),
            Ok((r, ids)) => match value_of(r) {
                None => (Err(Fault::Malformed), e),
                Some(term) => {
                    let (rest, e2) = patterns_refined(program, patterns, at + 1, e1, cache, fuel);
                    match rest {
                        Err(fault) => (Err(fault), e),
                        Ok((terms, more, asserts, bindings)) => (
                            Ok((seq![term] + terms, ids + more, r.asserts + asserts, r.bindings + bindings)),
                            e2,
                        ),
                    }
                },
            },
        }
    }
}

/// Is an integer of the kind signed?
pub fn signed_kind(kind: IntegerKind) -> (signed: bool)
    ensures
        signed == is_signed(kind),
{
    match kind {
        IntegerKind::U8 => false,
        IntegerKind::U16 => false,
        IntegerKind::U32 => false,
        IntegerKind::U64 => false,
        IntegerKind::Usz => false,
        _ => true,
    }
}

/// The term that a literal is.
pub fn term_of_literal(kind: &LiteralKind) -> (term: SolverTerm)
    ensures
        term@ == literal_term(*kind),
{
    match kind {
        LiteralKind::Integer(n, kind) => SolverTerm::Integer(*n, signed_kind(*kind)),
        LiteralKind::Float(bits) => SolverTerm::Float(*bits),
        LiteralKind::String(text) => SolverTerm::Text(text.clone()),
        LiteralKind::Char(c) => SolverTerm::Integer(*c as u64, false),
        LiteralKind::Bool(b) => SolverTerm::Bool(*b),
        LiteralKind::Unit => SolverTerm::Bool(true),
    }
}

impl RefinementContext {
    /// Encodes a pattern: returns what is known of it, and the definitions that it binds.
    pub fn refine_pattern(&mut self, program: &Program, pattern: AstId, cache: &ModuleCache, fuel: u32) -> (result:
        Result<(Refinements, Vec<DefinitionInfoId>), Fault>)
        ensures
            ({
                let expected = pattern_refined(*program, pattern, old(self)@, cache, fuel as nat);
                match expected.0 {
                    Ok((r, ids)) => result matches Ok((found, definitions)) && found@ == r && definitions@ == ids
                        && final(self)@ == expected.1,
                    Err(fault) => result matches Err(f) && f == fault,
                }
            }),
        decreases fuel, 1nat, 0nat,
    {
        if fuel == 0 {
            return Err(Fault::RecursionLimit);
        }
        if pattern.0 >= program.nodes.len() {
            return Err(Fault::Malformed);
        }
        let node = &program.nodes[pattern.0];
        match &node.kind {
            NodeKind::Literal(kind) => {
                let term = self.term(term_of_literal(kind));
                Ok((Refinements::from_value(term), Vec::new()))
            },
            NodeKind::Variable(variable) => {
                let (id, typ) = match (variable.definition, &node.typ) {
                    (Some(id), Some(typ)) => (id, typ),
                    _ => {
                        return Err(Fault::Malformed);
                    },
                };
                let sort = match self.type_to_sort(typ, cache, RECURSION_LIMIT) {
                    Err(fault) => {
                        return Err(fault);
                    },
                    Ok(sort) => sort,
                };
                let name = variable.name.clone().concat("$").concat(decimal_text(id.0 as u64).as_str());
                let var = self.variable(name.as_str(), sort);
                let refinements = Refinements::from_value(var);
                self.add_definition(id, refinements.clone());
                let mut ids: Vec<DefinitionInfoId> = Vec::new();
                ids.push(id);
                assert(ids@ =~= seq![id]);
                Ok((refinements, ids))
            },
            NodeKind::TypeAnnotation(lhs, _) => self.refine_pattern(program, *lhs, cache, fuel - 1),
            NodeKind::FunctionCall(function, args) => {
                let mut values: Vec<TermId> = Vec::new();
                let mut ids: Vec<DefinitionInfoId> = Vec::new();
                let mut asserts: Vec<(TermId, Location)> = Vec::new();
                let mut bindings: Vec<(TermId, TermId)> = Vec::new();
                match self.refine_patterns(
                    program,
                    args,
                    0,
                    &mut values,
                    &mut ids,
                    &mut asserts,
                    &mut bindings,
                    cache,
                    fuel - 1,
                ) {
                    Err(fault) => {
                        return Err(fault);
                    },
                    Ok(()) => {},
                }
                proof {
                    let parts = patterns_refined(*program, args@, 0, old(self)@, cache, (fuel - 1) as nat).0->Ok_0;
                    assert(Seq::<TermId>::empty() + parts.0 =~= parts.0);
                    assert(Seq::<DefinitionInfoId>::empty() + parts.1 =~= parts.1);
                    assert(Seq::<(TermId, Location)>::empty() + parts.2 =~= parts.2);
                    assert(Seq::<(TermId, TermId)>::empty() + parts.3 =~= parts.3);
                }
                if function.0 >= program.nodes.len() {
                    return Err(Fault::Malformed);
                }
                let callee = &program.nodes[function.0];
                let (id, function_type, typ) = match (&callee.kind, &callee.typ, &node.typ) {
                    (NodeKind::Variable(variable), Some(function_type), Some(typ)) => match variable.definition {
                        None => {
                            return Err(Fault::Malformed);
                        },
                        Some(id) => (id, function_type, typ),
                    },
                    _ => {
                        return Err(Fault::Malformed);
                    },
                };
                let f = match self.refine_definition(id, function_type, cache) {
                    Err(fault) => {
                        return Err(fault);
                    },
                    Ok(Step::Done(r)) => r,
                    Ok(Step::Body(_, constant)) => Refinements::from_value(constant),
                };
                let term = match &f.value {
                    RefinementValue::Function(callee, _) => {
                        let sort = match self.type_to_sort(typ, cache, RECURSION_LIMIT) {
                            Err(fault) => {
                                return Err(fault);
                            },
                            Ok(sort) => sort,
                        };
                        self.term(SolverTerm::Apply(callee.clone(), values, sort))
                    },
                    _ => match self.hidden_variable(typ, cache) {
                        Err(fault) => {
                            return Err(fault);
                        },
                        Ok(term) => term,
                    },
                };
                let refinements = Refinements::new(
                    RefinementValue::Pure(term),
                    concat(&asserts, &f.asserts),
                    concat(&bindings, &f.bindings),
                );
                Ok((refinements, ids))
            },
            _ => Err(Fault::Malformed),
        }
    }

    /// Encodes each of the patterns from position `at` on, and adds what they are to what
    /// is there.
    pub fn refine_patterns(
        &mut self,
        program: &Program,
        patterns: &Vec<AstId>,
        at: usize,
        values: &mut Vec<TermId>,
        ids: &mut Vec<DefinitionInfoId>,
        asserts: &mut Vec<(TermId, Location)>,
        bindings: &mut Vec<(TermId, TermId)>,
        cache: &ModuleCache,
        fuel: u32,
    ) -> (result: Result<(), Fault>)
        ensures
            ({
                let expected = patterns_refined(*program, patterns@, at as nat, old(self)@, cache, fuel as nat);
                match expected.0 {
                    Ok((terms, more, asserted, bound)) => result is Ok && final(values)@ == old(values)@ + terms
                        && final(ids)@ == old(ids)@ + more && final(asserts)@ == old(asserts)@ + asserted && final(bindings)@ == old(bindings)@ + bound && final(self)@ == expected.1,
                    Err(fault) => result == Err::<(), Fault>(fault),
                }
            }),
        decreases fuel, 2nat, patterns@.len() - at,
    {
        if at >= patterns.len() {
            assert(values@ + Seq::<TermId>::empty() =~= values@);
            assert(ids@ + Seq::<DefinitionInfoId>::empty() =~= ids@);
            assert(asserts@ + Seq::<(TermId, Location)>::empty() =~= asserts@);
            assert(bindings@ + Seq::<(TermId, TermId)>::empty() =~= bindings@);
            return Ok(());
        }
        let (first, mut found) = match self.refine_pattern(program, patterns[at], cache, fuel) {
            Err(fault) => {
                return Err(fault);
            },
            Ok(first) => first,
        };
        let term = match first.get_value() {
            None => {
                return Err(Fault::Malformed);
            },
            Some(term) => term,
        };
        let ghost r = first@;
        let ghost first_ids = found@;
        let ghost e1 = self@;
        let ghost before = (values@, ids@, asserts@, bindings@);
        values.push(term);
        ids.append(&mut found);
        let mut i: usize = 0;
        while i < first.asserts.len()
            invariant
                i <= first.asserts@.len(),
                asserts@ == before.2 + first.asserts@.take(i as int),
            decreases first.asserts@.len() - i,
        {
            asserts.push(first.asserts[i]);
            assert(asserts@ =~= before.2 + first.asserts@.take(i + 1));
            i += 1;
        }
        let mut i: usize = 0;
        while i < first.bindings.len()
            invariant
                i <= first.bindings@.len(),
                bindings@ == before.3 + first.bindings@.take(i as int),
            decreases first.bindings@.len() - i,
        {
            bindings.push(first.bindings[i]);
            assert(bindings@ =~= before.3 + first.bindings@.take(i + 1));
            i += 1;
        }
        proof {
            assert(first.asserts@.take(first.asserts@.len() as int) =~= first.asserts@);
            assert(first.bindings@.take(first.bindings@.len() as int) =~= first.bindings@);
        }
        match self.refine_patterns(program, patterns, at + 1, values, ids, asserts, bindings, cache, fuel) {
            Err(fault) => Err(fault),
            Ok(()) => {
                proof {
                    let rest = patterns_refined(*program, patterns@, (at + 1) as nat, e1, cache, fuel as nat).0->Ok_0;
                    assert(before.0.push(term) + rest.0 =~= before.0 + (seq![term] + rest.0));
                    assert((before.1 + first_ids) + rest.1 =~= before.1 + (first_ids + rest.1));
                    assert((before.2 + r.asserts) + rest.2 =~= before.2 + (r.asserts + rest.2));
                    assert((before.3 + r.bindings) + rest.3 =~= before.3 + (r.bindings + rest.3));
                }
                Ok(())
            },
        }
    }
}

} // verus!
