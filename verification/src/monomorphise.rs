//! Monomorphisation: the lowering of a typed program to the intermediate representation,
//! in which there are no generics and no traits.
use vstd::prelude::*;
use crate::ast::{ClosureEntry, LiteralKind, NodeKind, Program, Variable, BUILTIN_ID};
use crate::cache::ModuleCache;
use crate::context::{chase_all, Context, Definition, Lowered};
use crate::emit::{
    assignment_of, binary_of, builds, call_of, cast_of, definition_of, extern_of, global_of, if_of,
    lambda_of, member_of, offset_of, plain, reference_of, return_of, sequence_of, stack_alloc_of,
    variable_of,
};
use crate::error::Fault;
use crate::hir::{lemma_trees_of_append, 
    int_literal, lemma_names_of_push, lemma_trees_of_push, names_of, tag_value, trees_of, unit_literal,
    Ast, Builtin, CastOp, Constant, DefinitionId, Name, Tree,
};
use crate::hir_types::{layouts_of, IntegerKind, Layout};
use crate::lowering::lower;
use crate::mono_state::{defined, lemma_scope_replaced, MonoState};
use crate::monomorphise_parts::fix_arg_mutability;
use crate::monomorphise_spec::{
    constructor_definition, constructor_tree, parameters_from, take_id, Outcome,
};
use crate::monomorphise_walk::{
    closure_values, desugar, desugar_elements, environment_parameter, followed_type, is_builtin,
    lambda_captures,
    lambda_parameters, mono, mono_builtin, mono_call, mono_constructor, mono_definition,
    mono_definition_id, mono_each, mono_extern, mono_if, mono_lambda, mono_variable, reference_to,
};
use crate::monomorphise_spec::{binary_named, cast_named, one_or_sequence};
use crate::hir::{BinaryOp, Variable as Reference};
use vstd::string::StringExecFns;
use crate::types::{AstId, DefinitionInfoId, PrimitiveType, Term, Type};
use crate::unify::RECURSION_LIMIT;

verus! {

/// Does `result` hold the tree of the outcome, with `after` the state of the outcome; or
/// the fault of the outcome?
pub open spec fn gives(result: Result<Ast, Fault>, expected: Outcome, after: MonoState) -> bool {
    match expected.0 {
        Ok(tree) => result matches Ok(ast) && ast@ == tree && after == expected.1,
        Err(fault) => result matches Err(f) && f == fault,
    }
}

/// Does `result` hold the lowered definition of the outcome, with `after` the state of the
/// outcome; or the fault of the outcome?
pub open spec fn defines(
    result: Result<Definition, Fault>,
    expected: (Result<Lowered, Fault>, MonoState),
    after: MonoState,
) -> bool {
    match expected.0 {
        Ok(lowered) => result matches Ok(definition) && definition@ == lowered && after == expected.1,
        Err(fault) => result matches Err(f) && f == fault,
    }
}

impl Context {
    /// Takes the next id.
    pub fn take_next_id(&mut self) -> (result: Result<DefinitionId, Fault>)
        ensures
            final(self).cache == old(self).cache,
            final(self).depth() == old(self).depth(),
            match take_id(old(self).state()) {
                Ok((id, state)) => result == Ok::<DefinitionId, Fault>(id) && final(self).state() == state,
                Err(fault) => result == Err::<DefinitionId, Fault>(fault),
            },
    {
        self.next_unique_id()
    }

    /// What a constructor of a user-defined type is lowered to for the type `typ`, with
    /// the tag of its variant where the type is a sum type: see [`constructor_tree`].
    #[verifier::loop_isolation(false)]
    pub fn monomorphise_type_constructor(&mut self, tag: &Option<u8>, typ: &Type) -> (result: Result<Ast, Fault>)
        ensures
            final(self).cache == old(self).cache,
            final(self).depth() == old(self).depth(),
            ({
                let st = old(self).state();
                let (lowered, memo) = lower(typ@, st.memo, st.world(old(self).cache), RECURSION_LIMIT as nat);
                match lowered {
                    Err(fault) => result matches Err(f) && f == fault,
                    Ok(layout) => match constructor_tree(*tag, layout, st.next_id) {
                        Err(fault) => result matches Err(f) && f == fault,
                        Ok((tree, next_id)) => result matches Ok(ast) && ast@ == tree && final(self).state() == (
                        MonoState { memo, next_id, ..st }),
                    },
                }
            }),
    {
        reveal(constructor_tree);
        proof {
            self.lemma_state();
        }
        let lowered = match self.convert_type(typ) {
            Err(fault) => {
                return Err(fault);
            },
            Ok(lowered) => lowered,
        };
        let ghost layout = lowered@;
        let ghost first = self.next_id;
        let ghost converted = self.state();
        proof {
            assert(lowered.layout() is Function <==> lowered is Function);
            assert(lowered.layout() is Tuple <==> lowered is Tuple);
            assert(lowered.layout() is Primitive <==> lowered is Primitive);
        }
        match lowered {
            crate::hir_types::Type::Function(function_type) => {
                let ghost parameters = layouts_of(function_type.parameters@);
                assert(layout == crate::hir::function_layout(function_type));
                let count = function_type.parameters.len();
                let mut args: Vec<(crate::hir::Variable, bool)> = Vec::new();
                let mut tuple_args: Vec<Ast> = Vec::new();
                match tag {
                    Some(tag) => {
                        tuple_args.push(tag_value(*tag));
                    },
                    None => {},
                }
                let ghost front = trees_of(tuple_args@);
                let mut i: usize = 0;
                assert(names_of(args@) =~= parameters_from(first, 0));
                while i < count
                    invariant
                        i <= count,
                        count == parameters.len(),
                        first + i <= usize::MAX,
                        self.next_id == first + i,
                        self.depth() == old(self).depth(),
                        self.cache == old(self).cache && self.state() == (MonoState {
                            next_id: self.next_id,
                            ..converted
                        }),
                        names_of(args@) == parameters_from(first, i as nat),
                        trees_of(tuple_args@) == front + Seq::new(
                            i as nat,
                            |k: int| Tree::Variable(parameters_from(first, count as nat)[k].0),
                        ),
                    decreases count - i,
                {
                    let variable = match self.fresh_variable() {
                        Err(fault) => {
                            return Err(fault);
                        },
                        Ok(variable) => variable,
                    };
                    let value = reference_of(variable.clone());
                    proof {
                        lemma_names_of_push(args@, variable, false);
                        lemma_trees_of_push(tuple_args@, value);
                        assert(parameters_from(first, i as nat).push((variable@, false)) =~= parameters_from(
                            first,
                            (i + 1) as nat,
                        ));
                        assert((front + Seq::new(
                            i as nat,
                            |k: int| Tree::Variable(parameters_from(first, count as nat)[k].0),
                        )).push(value@) =~= front + Seq::new(
                            (i + 1) as nat,
                            |k: int| Tree::Variable(parameters_from(first, count as nat)[k].0),
                        ));
                    }
                    args.push((variable, false));
                    tuple_args.push(value);
                    i += 1;
                }
                let size = match self.sum_monomorphised(&function_type.parameters, count) {
                    Err(fault) => {
                        return Err(fault);
                    },
                    Ok(size) => size,
                };
                let ghost values = Seq::new(
                    count as nat,
                    |k: int| Tree::Variable(parameters_from(first, count as nat)[k].0),
                );
                let tuple = self.tuple(tuple_args);
                assert(tuple@ == Tree::Tuple(front + values));
                let body = match tag {
                    None => {
                        assert(front + values =~= values);
                        tuple
                    },
                    Some(tag) => {
                        let tuple_size = match size.checked_add(1) {
                            None => {
                                return Err(Fault::SizeOverflow);
                            },
                            Some(sum) => sum,
                        };
                        let target_type = (*function_type.return_type).clone();
                        assert(front =~= seq![Tree::Literal(Constant::Integer(*tag as u64, IntegerKind::U8))]);
                        match self.size_of_monomorphised_type(&target_type) {
                            Err(fault) => {
                                return Err(fault);
                            },
                            Ok(target_size) => {
                                // A variant is no larger than its type
                                if tuple_size > target_size {
                                    return Err(Fault::Malformed);
                                }
                            },
                        }
                        match self.make_reinterpret_cast(tuple, tuple_size, target_type) {
                            Err(fault) => {
                                return Err(fault);
                            },
                            Ok(body) => body,
                        }
                    },
                };
                Ok(lambda_of(args, body, function_type))
            },
            crate::hir_types::Type::Tuple(fields) => match tag {
                None => Ok(unit_literal()),
                Some(tag) => {
                    let value = tag_value(*tag);
                    let target = crate::hir_types::Type::Tuple(fields);
                    assert(target@ == layout);
                    match self.size_of_monomorphised_type(&target) {
                        Err(fault) => {
                            return Err(fault);
                        },
                        Ok(target_size) => {
                            if 1 > target_size {
                                return Err(Fault::Malformed);
                            }
                        },
                    }
                    self.make_reinterpret_cast(value, 1, target)
                },
            },
            crate::hir_types::Type::Primitive(_) => Err(Fault::Malformed),
        }
    }

    /// Enters the definition of a constructor in the table of lowered definitions: as a
    /// global definition where the constructor is a function, else as a macro.
    pub fn define_type_constructor(&mut self, definition_rhs: Ast, original_id: DefinitionInfoId, typ: Type) -> (result:
        Result<Definition, Fault>)
        ensures
            final(self).cache == old(self).cache,
            final(self).depth() == old(self).depth(),
            match constructor_definition(definition_rhs@, old(self).next_id) {
                Err(fault) => result matches Err(f) && f == fault,
                Ok((lowered, next_id)) => result matches Ok(definition) && definition@ == lowered && final(self).state() == (MonoState { next_id, ..old(self).state() }).define(original_id, typ@, lowered),
            },
    {
        reveal(constructor_definition);
        assert(definition_rhs.tree() is Lambda <==> definition_rhs is Lambda);
        let is_lambda = match &definition_rhs {
            Ast::Lambda(_) => true,
            _ => false,
        };
        let def = if is_lambda {
            let variable = match self.next_unique_id() {
                Err(fault) => {
                    return Err(fault);
                },
                Ok(variable) => variable,
            };
            let definition = definition_of(variable, definition_rhs);
            Definition::Normal(global_of(variable, definition))
        } else {
            Definition::Macro(definition_rhs)
        };
        self.insert_definition(original_id, typ, def.clone());
        Ok(def)
    }

    /// Lowers a constructor of a user-defined type for the type and enters it in the table
    /// of lowered definitions.
    pub fn monomorphise_constructor(&mut self, tag: &Option<u8>, id: DefinitionInfoId, typ: Type) -> (result:
        Result<Definition, Fault>)
        ensures
            final(self).cache == old(self).cache,
            final(self).depth() == old(self).depth(),
            defines(result, mono_constructor(*tag, id, typ@, old(self).cache, old(self).state()), final(self).state()),
    {
        reveal(mono_constructor);
        let definition = match self.monomorphise_type_constructor(tag, &typ) {
            Err(fault) => {
                return Err(fault);
            },
            Ok(definition) => definition,
        };
        self.define_type_constructor(definition, id, typ)
    }

    /// Lowers a declaration of something that is defined elsewhere. Such a declaration is
    /// made once, not once for each type it is used at: its definition is kept under the
    /// unit type.
    pub fn make_extern(&mut self, id: DefinitionInfoId, typ: &Type) -> (result: Result<Definition, Fault>)
        requires
            id.0 < old(self).cache.definition_infos@.len(),
        ensures
            final(self).cache == old(self).cache,
            final(self).depth() == old(self).depth(),
            defines(result, mono_extern(id, typ@, old(self).cache, old(self).state()), final(self).state()),
    {
        reveal(mono_extern);
        proof {
            self.lemma_state();
        }
        let unbound = Type::Primitive(PrimitiveType::UnitType);
        assert(chase_all(unbound@, self.stack(), self.cache.store(), RECURSION_LIMIT as nat) == Ok::<Term, Fault>(
            unbound@,
        ));
        match self.lookup_definition(id, &unbound) {
            Err(fault) => {
                return Err(fault);
            },
            Ok(Some(value)) => {
                self.insert_definition(id, typ.clone(), value.clone());
                return Ok(value);
            },
            Ok(None) => {},
        }
        let name = self.cache.definition_infos[id.0].name.clone();
        let lowered = match self.convert_type(typ) {
            Err(fault) => {
                return Err(fault);
            },
            Ok(lowered) => lowered,
        };
        let declaration = extern_of(name, lowered);
        let definition = match self.make_definition(declaration) {
            Err(fault) => {
                return Err(fault);
            },
            Ok(definition) => definition,
        };
        // Insert the global for both the current type and the unit type
        let definition = Definition::Normal(definition);
        self.insert_definition(id, typ.clone(), definition.clone());
        self.insert_definition(id, unbound, definition.clone());
        Ok(definition)
    }
}

/// The one statement, or the sequence of the statements where there are more.
pub fn single_or_sequence(statements: Vec<Ast>) -> (ast: Ast)
    requires
        statements@.len() > 0,
    ensures
        ast@ == one_or_sequence(trees_of(statements@)),
{
    let mut statements = statements;
    if statements.len() == 1 {
        assert(trees_of(statements@)[0] == statements@[0]@);
        statements.remove(0)
    } else {
        sequence_of(statements)
    }
}

/// The operation on two operands that the text names.
pub fn binary_operation(name: &String) -> (op: Option<BinaryOp>)
    ensures
        op == binary_named(name@),
{
    reveal(binary_named);
    if *name == String::from_str("AddInt") {
        Some(BinaryOp::AddInt)
    } else if *name == String::from_str("AddFloat") {
        Some(BinaryOp::AddFloat)
    } else if *name == String::from_str("SubInt") {
        Some(BinaryOp::SubInt)
    } else if *name == String::from_str("SubFloat") {
        Some(BinaryOp::SubFloat)
    } else if *name == String::from_str("MulInt") {
        Some(BinaryOp::MulInt)
    } else if *name == String::from_str("MulFloat") {
        Some(BinaryOp::MulFloat)
    } else if *name == String::from_str("DivSigned") {
        Some(BinaryOp::DivSigned)
    } else if *name == String::from_str("DivUnsigned") {
        Some(BinaryOp::DivUnsigned)
    } else if *name == String::from_str("DivFloat") {
        Some(BinaryOp::DivFloat)
    } else if *name == String::from_str("ModSigned") {
        Some(BinaryOp::ModSigned)
    } else if *name == String::from_str("ModUnsigned") {
        Some(BinaryOp::ModUnsigned)
    } else if *name == String::from_str("ModFloat") {
        Some(BinaryOp::ModFloat)
    } else if *name == String::from_str("LessSigned") {
        Some(BinaryOp::LessSigned)
    } else if *name == String::from_str("LessUnsigned") {
        Some(BinaryOp::LessUnsigned)
    } else if *name == String::from_str("LessFloat") {
        Some(BinaryOp::LessFloat)
    } else if *name == String::from_str("EqInt") {
        Some(BinaryOp::EqInt)
    } else if *name == String::from_str("EqFloat") {
        Some(BinaryOp::EqFloat)
    } else if *name == String::from_str("EqChar") {
        Some(BinaryOp::EqChar)
    } else if *name == String::from_str("EqBool") {
        Some(BinaryOp::EqBool)
    } else {
        None
    }
}

/// The operation to a type that the text names.
pub fn cast_operation(name: &String) -> (op: Option<CastOp>)
    ensures
        op == cast_named(name@),
{
    reveal(cast_named);
    if *name == String::from_str("SignExtend") {
        Some(CastOp::SignExtend)
    } else if *name == String::from_str("ZeroExtend") {
        Some(CastOp::ZeroExtend)
    } else if *name == String::from_str("SignedToFloat") {
        Some(CastOp::SignedToFloat)
    } else if *name == String::from_str("UnsignedToFloat") {
        Some(CastOp::UnsignedToFloat)
    } else if *name == String::from_str("FloatToSigned") {
        Some(CastOp::FloatToSigned)
    } else if *name == String::from_str("FloatToUnsigned") {
        Some(CastOp::FloatToUnsigned)
    } else if *name == String::from_str("Truncate") {
        Some(CastOp::Truncate)
    } else if *name == String::from_str("Deref") {
        Some(CastOp::Deref)
    } else if *name == String::from_str("Transmute") {
        Some(CastOp::Transmute)
    } else {
        None
    }
}

impl Context {
    /// The type in the type slot of the node, with all bindings followed.
    pub fn followed_type_of(&self, program: &Program, id: AstId) -> (result: Result<Type, Fault>)
        ensures
            crate::substitute::yields(result, followed_type(*program, self.cache, id, self.state())),
    {
        reveal(followed_type);
        match program.get(id) {
            None => Err(Fault::Malformed),
            Some(node) => match &node.typ {
                None => Err(Fault::Malformed),
                Some(typ) => self.follow_all_bindings(typ),
            },
        }
    }

    /// The use of a lowered definition at the type.
    pub fn reference_definition(&mut self, definition: Definition, typ: &Type) -> (result: Result<Ast, Fault>)
        ensures
            final(self).cache == old(self).cache,
            final(self).depth() == old(self).depth(),
            gives(result, reference_to(definition@, typ@, old(self).cache, old(self).state()), final(self).state()),
    {
        reveal(reference_to);
        proof {
            self.lemma_state();
        }
        definition.reference(self, typ)
    }

    /// Simplifies a pattern and the value it is bound to, like `(a, b) = foo ()`, into
    /// bindings of one name each: `new_var = foo ()`, `a = extract 0 new_var`,
    /// `b = extract 1 new_var`. The bindings for the parts are added to `definitions`; the
    /// names of the pattern are entered in the table of lowered definitions.
    ///
    /// `typ` is the type of the value, with all bindings followed.
    pub fn desugar_pattern(
        &mut self,
        program: &Program,
        pattern: AstId,
        definition_id: DefinitionId,
        typ: Type,
        mutable: bool,
        definitions: &mut Vec<Ast>,
        fuel: u32,
    ) -> (result: Result<(), Fault>)
        ensures
            final(self).cache == old(self).cache,
            final(self).depth() == old(self).depth(),
            ({
                let expected = desugar(
                    *program,
                    old(self).cache,
                    pattern,
                    definition_id,
                    typ@,
                    mutable,
                    old(self).state(),
                    fuel as nat,
                );
                match expected.0 {
                    Ok(more) => result is Ok && trees_of(final(definitions)@) == trees_of(old(definitions)@) + more
                        && final(self).state() == expected.1,
                    Err(fault) => result == Err::<(), Fault>(fault),
                }
            }),
        decreases fuel, 1nat, 0nat,
    {
        reveal(desugar);
        reveal(desugar_elements);
        if fuel == 0 {
            return Err(Fault::RecursionLimit);
        }
        let node = match program.get(pattern) {
            None => {
                return Err(Fault::Malformed);
            },
            Some(node) => node,
        };
        match &node.kind {
            NodeKind::Literal(LiteralKind::Unit) => {
                assert(trees_of(definitions@) + Seq::<Tree>::empty() =~= trees_of(definitions@));
                Ok(())
            },
            NodeKind::Variable(variable_pattern) => {
                let id = match variable_pattern.definition {
                    None => {
                        return Err(Fault::Malformed);
                    },
                    Some(id) => id,
                };
                let variable = Reference { definition_id, definition: None };
                assert(variable@ == plain(definition_id));
                let definition = if mutable {
                    Definition::Mutable(variable)
                } else {
                    Definition::Normal(variable)
                };
                self.insert_definition(id, typ, definition);
                assert(trees_of(definitions@) + Seq::<Tree>::empty() =~= trees_of(definitions@));
                Ok(())
            },
            NodeKind::TypeAnnotation(lhs, annotated) => {
                let mutable = mutable || *annotated;
                self.desugar_pattern(program, *lhs, definition_id, typ, mutable, definitions, fuel - 1)
            },
            NodeKind::FunctionCall(function, args) => {
                if program.is_pair_constructor(*function) {
                    self.desugar_elements(program, args, 0, definition_id, mutable, 0, definitions, fuel - 1)
                } else {
                    Err(Fault::Malformed)
                }
            },
            _ => Err(Fault::Malformed),
        }
    }

    /// Binds the parts of a pair pattern from position `at` on.
    pub fn desugar_elements(
        &mut self,
        program: &Program,
        args: &Vec<AstId>,
        at: usize,
        definition_id: DefinitionId,
        mutable: bool,
        offset: usize,
        definitions: &mut Vec<Ast>,
        fuel: u32,
    ) -> (result: Result<(), Fault>)
        ensures
            final(self).cache == old(self).cache,
            final(self).depth() == old(self).depth(),
            ({
                let expected = desugar_elements(
                    *program,
                    old(self).cache,
                    args@,
                    at as nat,
                    definition_id,
                    mutable,
                    offset,
                    old(self).state(),
                    fuel as nat,
                );
                match expected.0 {
                    Ok(more) => result is Ok && trees_of(final(definitions)@) == trees_of(old(definitions)@) + more
                        && final(self).state() == expected.1,
                    Err(fault) => result == Err::<(), Fault>(fault),
                }
            }),
        decreases fuel, 2nat, args@.len() - at,
    {
        reveal(desugar_elements);
        reveal(desugar);
        proof {
            self.lemma_state();
        }
        if at >= args.len() {
            assert(trees_of(definitions@) + Seq::<Tree>::empty() =~= trees_of(definitions@));
            return Ok(());
        }
        if at > u32::MAX as usize {
            return Err(Fault::SizeOverflow);
        }
        let arg_pattern = args[at];
        let arg_type = match self.followed_type_of(program, arg_pattern) {
            Err(fault) => {
                return Err(fault);
            },
            Ok(arg_type) => arg_type,
        };
        let value = variable_of(definition_id);
        let mut next_offset = offset;
        let extract = if mutable {
            let size = match self.size_of_type(&arg_type) {
                Err(fault) => {
                    return Err(fault);
                },
                Ok(size) => size,
            };
            next_offset = match offset.checked_add(size) {
                None => {
                    return Err(Fault::SizeOverflow);
                },
                Some(sum) => sum,
            };
            crate::hir::offset_ptr(value, offset as u64)
        } else {
            member_of(value, at as u32)
        };
        let id = match self.take_next_id() {
            Err(fault) => {
                return Err(fault);
            },
            Ok(id) => id,
        };
        let definition = definition_of(id, extract);
        let ghost before = trees_of(definitions@);
        let ghost first = definition@;
        proof {
            lemma_trees_of_push(definitions@, definition);
        }
        definitions.push(definition);
        let ghost taken = self.state();
        match self.desugar_pattern(program, arg_pattern, id, arg_type, mutable, definitions, fuel) {
            Err(fault) => {
                return Err(fault);
            },
            Ok(()) => {},
        }
        let ghost nested = desugar(
            *program,
            self.cache,
            arg_pattern,
            id,
            arg_type@,
            mutable,
            taken,
            fuel as nat,
        ).0->Ok_0;
        let ghost bound = self.state();
        match self.desugar_elements(program, args, at + 1, definition_id, mutable, next_offset, definitions, fuel) {
            Err(fault) => Err(fault),
            Ok(()) => {
                proof {
                    let more = desugar_elements(
                        *program,
                        self.cache,
                        args@,
                        (at + 1) as nat,
                        definition_id,
                        mutable,
                        next_offset,
                        bound,
                        fuel as nat,
                    ).0->Ok_0;
                    assert(before.push(first) + nested + more =~= before + (seq![first] + nested + more));
                }
                Ok(())
            },
        }
    }

    /// Lowers each of the nodes from position `at` on in turn and adds what they are
    /// lowered to to `lowered`.
    pub fn monomorphise_each(&mut self, program: &Program, ids: &Vec<AstId>, at: usize, lowered: &mut Vec<Ast>, fuel: u32) -> (result:
        Result<(), Fault>)
        requires
            at <= ids@.len(),
        ensures
            final(self).cache == old(self).cache,
            final(self).depth() == old(self).depth(),
            ({
                let expected = mono_each(
                    *program,
                    old(self).cache,
                    ids@.subrange(at as int, ids@.len() as int),
                    old(self).state(),
                    fuel as nat,
                );
                match expected.0 {
                    Ok(more) => result is Ok && trees_of(final(lowered)@) == trees_of(old(lowered)@) + more
                        && final(self).state() == expected.1,
                    Err(fault) => result == Err::<(), Fault>(fault),
                }
            }),
        decreases fuel, 1nat, ids@.len() - at,
    {
        reveal(mono_each);
        reveal(mono);
        let ghost rest = ids@.subrange(at as int, ids@.len() as int);
        if at >= ids.len() {
            assert(trees_of(lowered@) + Seq::<Tree>::empty() =~= trees_of(lowered@));
            return Ok(());
        }
        assert(rest[0] == ids@[at as int]);
        assert(rest.drop_first() =~= ids@.subrange(at + 1, ids@.len() as int));
        let tree = match self.monomorphise(program, ids[at], fuel) {
            Err(fault) => {
                return Err(fault);
            },
            Ok(tree) => tree,
        };
        let ghost before = trees_of(lowered@);
        let ghost first = tree@;
        proof {
            lemma_trees_of_push(lowered@, tree);
        }
        lowered.push(tree);
        let ghost state = self.state();
        match self.monomorphise_each(program, ids, at + 1, lowered, fuel) {
            Err(fault) => Err(fault),
            Ok(()) => {
                proof {
                    let more = mono_each(*program, self.cache, rest.drop_first(), state, fuel as nat).0->Ok_0;
                    assert(before.push(first) + more =~= before + (seq![first] + more));
                }
                Ok(())
            },
        }
    }

    /// Lowers the node: removes all generics and traits, and what is there for the
    /// programmer only.
    pub fn monomorphise(&mut self, program: &Program, id: AstId, fuel: u32) -> (result: Result<Ast, Fault>)
        ensures
            final(self).cache == old(self).cache,
            final(self).depth() == old(self).depth(),
            gives(result, mono(*program, old(self).cache, id, old(self).state(), fuel as nat), final(self).state()),
        decreases fuel, 0nat, 0nat,
    {
        reveal(mono);
        reveal(mono_variable);
        reveal(mono_lambda);
        reveal(mono_call);
        reveal(mono_definition);
        reveal(mono_if);
        reveal(mono_each);
        if fuel == 0 {
            return Err(Fault::RecursionLimit);
        }
        let fuel = fuel - 1;
        let node = match program.get(id) {
            None => {
                return Err(Fault::Malformed);
            },
            Some(node) => node,
        };
        match &node.kind {
            NodeKind::Literal(kind) => self.monomorphise_literal(kind),
            NodeKind::Variable(variable) => self.monomorphise_variable(program, variable, &node.typ, fuel),
            NodeKind::Lambda(_, _, _) => self.monomorphise_lambda(program, id, fuel),
            NodeKind::FunctionCall(_, _) => self.monomorphise_call(program, id, fuel),
            NodeKind::Definition(pattern, expr, mutable, _) => self.monomorphise_definition(
                program,
                *pattern,
                *expr,
                *mutable,
                fuel,
            ),
            NodeKind::If(_, _, _) => self.monomorphise_if(program, id, fuel),
            NodeKind::Match(_, _, _) => Err(Fault::NoDecisionTree),
            NodeKind::TypeDefinition => Ok(unit_literal()),
            NodeKind::TypeAnnotation(lhs, _) => self.monomorphise(program, *lhs, fuel),
            NodeKind::Import => Ok(unit_literal()),
            NodeKind::TraitDefinition(_, _) => Ok(unit_literal()),
            NodeKind::TraitImpl(_, _, _, _) => Ok(unit_literal()),
            NodeKind::Return(expression) => self.monomorphise_return(program, *expression, fuel),
            NodeKind::Sequence(statements) => self.monomorphise_sequence(program, statements, fuel),
            NodeKind::Extern(_, _) => Ok(unit_literal()),
            NodeKind::MemberAccess(lhs, field) => self.monomorphise_member_access(program, *lhs, field, fuel),
            NodeKind::Assignment(lhs, rhs) => self.monomorphise_assignment(program, *lhs, *rhs, fuel),
        }
    }

    fn monomorphise_return(&mut self, program: &Program, expression: AstId, fuel: u32) -> (result: Result<Ast, Fault>)
        ensures
            final(self).cache == old(self).cache,
            final(self).depth() == old(self).depth(),
            ({
                let (value, state) = mono(*program, old(self).cache, expression, old(self).state(), fuel as nat);
                match value {
                    Ok(tree) => result matches Ok(ast) && ast@ == Tree::Return(Box::new(tree)) && final(self).state()
                        == state,
                    Err(fault) => result matches Err(f) && f == fault,
                }
            }),
        decreases fuel, 7nat, 0nat,
    {
        reveal(mono);
        reveal(mono_each);
        match self.monomorphise(program, expression, fuel) {
            Err(fault) => Err(fault),
            Ok(value) => Ok(return_of(value)),
        }
    }

    fn monomorphise_sequence(&mut self, program: &Program, statements: &Vec<AstId>, fuel: u32) -> (result: Result<
        Ast,
        Fault,
    >)
        ensures
            final(self).cache == old(self).cache,
            final(self).depth() == old(self).depth(),
            ({
                let (values, state) = mono_each(*program, old(self).cache, statements@, old(self).state(), fuel as nat);
                match values {
                    Ok(trees) => result matches Ok(ast) && ast@ == Tree::Sequence(trees) && final(self).state()
                        == state,
                    Err(fault) => result matches Err(f) && f == fault,
                }
            }),
        decreases fuel, 7nat, 0nat,
    {
        reveal(mono);
        reveal(mono_each);
        let mut lowered: Vec<Ast> = Vec::new();
        assert(statements@.subrange(0, statements@.len() as int) =~= statements@);
        assert(trees_of(lowered@) =~= Seq::<Tree>::empty());
        match self.monomorphise_each(program, statements, 0, &mut lowered, fuel) {
            Err(fault) => Err(fault),
            Ok(()) => {
                proof {
                    let trees = mono_each(*program, old(self).cache, statements@, old(self).state(), fuel as nat).0->Ok_0;
                    assert(Seq::<Tree>::empty() + trees =~= trees);
                }
                Ok(sequence_of(lowered))
            },
        }
    }

    fn monomorphise_member_access(&mut self, program: &Program, lhs: AstId, field: &String, fuel: u32) -> (result:
        Result<Ast, Fault>)
        ensures
            final(self).cache == old(self).cache,
            final(self).depth() == old(self).depth(),
            ({
                let st = old(self).state();
                let cache = old(self).cache;
                let expected: Outcome = if !program.has(lhs) {
                    (Err(Fault::Malformed), st)
                } else {
                    match program.node(lhs).typ {
                        None => (Err(Fault::Malformed), st),
                        Some(typ) => match crate::monomorphise_spec::field_index(
                            field@,
                            typ@,
                            cache,
                            st,
                            RECURSION_LIMIT as nat,
                        ) {
                            Err(fault) => (Err(fault), st),
                            Ok(index) => {
                                let (value, st1) = mono(*program, cache, lhs, st, fuel as nat);
                                match value {
                                    Err(fault) => (Err(fault), st),
                                    Ok(tree) => match crate::emit::extracted(tree, index) {
                                        Err(fault) => (Err(fault), st),
                                        Ok(found) => (Ok(found), st1),
                                    },
                                }
                            },
                        },
                    }
                };
                gives(result, expected, final(self).state())
            }),
        decreases fuel, 7nat, 0nat,
    {
        reveal(mono);
        reveal(mono_each);
        let index = match program.get(lhs) {
            None => {
                return Err(Fault::Malformed);
            },
            Some(node) => match &node.typ {
                None => {
                    return Err(Fault::Malformed);
                },
                Some(typ) => match self.get_field_index(field, typ, RECURSION_LIMIT) {
                    Err(fault) => {
                        return Err(fault);
                    },
                    Ok(index) => index,
                },
            },
        };
        let value = match self.monomorphise(program, lhs, fuel) {
            Err(fault) => {
                return Err(fault);
            },
            Ok(value) => value,
        };
        self.extract(value, index)
    }

    fn monomorphise_assignment(&mut self, program: &Program, lhs: AstId, rhs: AstId, fuel: u32) -> (result: Result<
        Ast,
        Fault,
    >)
        ensures
            final(self).cache == old(self).cache,
            final(self).depth() == old(self).depth(),
            ({
                let st = old(self).state();
                let cache = old(self).cache;
                let (target, st1) = mono(*program, cache, lhs, st, fuel as nat);
                let expected: Outcome = match target {
                    Err(fault) => (Err(fault), st),
                    Ok(tree) => {
                        let address = match tree {
                            Tree::Cast(CastOp::Deref, value, _) => *value,
                            other => other,
                        };
                        let (value, st2) = mono(*program, cache, rhs, st1, fuel as nat);
                        match value {
                            Err(fault) => (Err(fault), st),
                            Ok(assigned) => (Ok(Tree::Assignment(Box::new(address), Box::new(assigned))), st2),
                        }
                    },
                };
                gives(result, expected, final(self).state())
            }),
        decreases fuel, 7nat, 0nat,
    {
        reveal(mono);
        reveal(mono_each);
        let target = match self.monomorphise(program, lhs, fuel) {
            Err(fault) => {
                return Err(fault);
            },
            Ok(target) => target,
        };
        let ghost tree = target@;
        let address = match target {
            Ast::Builtin(Builtin::Cast(CastOp::Deref, value, typ)) => {
                assert(tree == Tree::Cast(CastOp::Deref, Box::new(value@), typ@));
                *value
            },
            other => {
                assert(!(tree matches Tree::Cast(CastOp::Deref, _, _)));
                other
            },
        };
        match self.monomorphise(program, rhs, fuel) {
            Err(fault) => Err(fault),
            Ok(value) => Ok(assignment_of(address, value)),
        }
    }

    fn monomorphise_if(&mut self, program: &Program, id: AstId, fuel: u32) -> (result: Result<Ast, Fault>)
        requires
            program.has(id),
            program.node(id).kind is If,
        ensures
            final(self).cache == old(self).cache,
            final(self).depth() == old(self).depth(),
            gives(result, mono_if(*program, old(self).cache, id, old(self).state(), fuel as nat), final(self).state()),
        decreases fuel, 7nat, 0nat,
    {
        reveal(mono_if);
        reveal(mono);
        let node = &program.nodes[id.0];
        match &node.kind {
            NodeKind::If(condition, then_branch, otherwise) => {
                let lowered_condition = match self.monomorphise(program, *condition, fuel) {
                    Err(fault) => {
                        return Err(fault);
                    },
                    Ok(tree) => tree,
                };
                let lowered_then = match self.monomorphise(program, *then_branch, fuel) {
                    Err(fault) => {
                        return Err(fault);
                    },
                    Ok(tree) => tree,
                };
                let lowered_otherwise = match otherwise {
                    None => None,
                    Some(branch) => match self.monomorphise(program, *branch, fuel) {
                        Err(fault) => {
                            return Err(fault);
                        },
                        Ok(tree) => Some(tree),
                    },
                };
                let typ = match &node.typ {
                    None => {
                        return Err(Fault::Malformed);
                    },
                    Some(typ) => typ,
                };
                proof {
                    self.lemma_state();
                }
                let result_type = match self.convert_type(typ) {
                    Err(fault) => {
                        return Err(fault);
                    },
                    Ok(result_type) => result_type,
                };
                Ok(if_of(lowered_condition, lowered_then, lowered_otherwise, result_type))
            },
            _ => Err(Fault::Malformed),
        }
    }

    /// Lowers a definition where it stands.
    pub fn monomorphise_definition(&mut self, program: &Program, pattern: AstId, expr: AstId, mutable: bool, fuel: u32) -> (result:
        Result<Ast, Fault>)
        ensures
            final(self).cache == old(self).cache,
            final(self).depth() == old(self).depth(),
            gives(
                result,
                mono_definition(*program, old(self).cache, pattern, expr, mutable, old(self).state(), fuel as nat),
                final(self).state(),
            ),
        decreases fuel, 7nat, 0nat,
    {
        reveal(mono_definition);
        reveal(mono);
        reveal(desugar);
        // A function is passed over: it is lowered when it is known at which types it is used.
        let is_lambda = match program.get(expr) {
            Some(node) => match &node.kind {
                NodeKind::Lambda(_, _, _) => true,
                _ => false,
            },
            None => false,
        };
        if is_lambda {
            return Ok(unit_literal());
        }
        let mut value = match self.monomorphise(program, expr, fuel) {
            Err(fault) => {
                return Err(fault);
            },
            Ok(value) => value,
        };
        if mutable {
            value = stack_alloc_of(value);
        }
        let id = match self.take_next_id() {
            Err(fault) => {
                return Err(fault);
            },
            Ok(id) => id,
        };
        let new_definition = definition_of(id, value);
        let mut nested_definitions: Vec<Ast> = Vec::new();
        nested_definitions.push(new_definition);
        assert(trees_of(nested_definitions@) =~= seq![new_definition@]);
        let typ = match self.followed_type_of(program, pattern) {
            Err(fault) => {
                return Err(fault);
            },
            Ok(typ) => typ,
        };
        match self.desugar_pattern(program, pattern, id, typ, mutable, &mut nested_definitions, fuel) {
            Err(fault) => {
                return Err(fault);
            },
            Ok(()) => {},
        }
        Ok(single_or_sequence(nested_definitions))
    }

}

impl Context {
    /// Lowers a use of a variable: the definition that the use stands for is lowered for
    /// the type of the use, and the use becomes a reference to that. The definition is the
    /// one in an impl where the variable is a member of a trait.
    pub fn monomorphise_variable(&mut self, program: &Program, variable: &Variable, typ: &Option<Type>, fuel: u32) -> (result:
        Result<Ast, Fault>)
        ensures
            final(self).cache == old(self).cache,
            final(self).depth() == old(self).depth(),
            gives(
                result,
                mono_variable(*program, old(self).cache, *variable, *typ, old(self).state(), fuel as nat),
                final(self).state(),
            ),
        decreases fuel, 7nat, 0nat,
    {
        reveal(mono_variable);
        reveal(mono_definition_id);
        let (id, definition, typ) = match (variable.id, variable.definition, typ) {
            (Some(id), Some(definition), Some(typ)) => (id, definition, typ),
            _ => {
                return Err(Fault::Malformed);
            },
        };
        if id.0 >= self.cache.variable_infos.len() {
            return Err(Fault::UnknownDefinition(id.0));
        }
        proof {
            self.lemma_state();
        }
        if !self.is_scoped() {
            return Err(Fault::Malformed);
        }
        let ghost before = *self;
        match self.add_required_impls(id) {
            Err(fault) => {
                return Err(fault);
            },
            Ok(()) => {},
        }
        proof {
            lemma_scope_replaced(&before, self);
            self.lemma_state();
        }
        // The definition to lower is the one in the impl if this variable is a member of a
        // trait, or otherwise the definition that the name was resolved to.
        let definition_id = self.get_definition_id(id, definition);
        let found = match self.monomorphise_definition_id(
            program,
            definition_id,
            id,
            typ,
            &variable.instantiation_mapping,
            fuel,
        ) {
            Err(fault) => {
                return Err(fault);
            },
            Ok(found) => found,
        };
        self.reference_definition(found, typ)
    }

    /// Binds the parameters of a lambda from position `at` on: each gets a new variable,
    /// which is added to `parameters`, and what its pattern stands for is added to
    /// `body_prelude`.
    pub fn lambda_parameters(
        &mut self,
        program: &Program,
        args: &Vec<AstId>,
        at: usize,
        parameters: &mut Vec<(Reference, bool)>,
        body_prelude: &mut Vec<Ast>,
        fuel: u32,
    ) -> (result: Result<(), Fault>)
        ensures
            final(self).cache == old(self).cache,
            final(self).depth() == old(self).depth(),
            ({
                let expected = lambda_parameters(
                    *program,
                    old(self).cache,
                    args@,
                    at as nat,
                    old(self).state(),
                    fuel as nat,
                );
                match expected.0 {
                    Ok((names, prelude)) => {
                        &&& result is Ok
                        &&& names_of(final(parameters)@) == names_of(old(parameters)@) + names
                        &&& trees_of(final(body_prelude)@) == trees_of(old(body_prelude)@) + prelude
                        &&& final(self).state() == expected.1
                    },
                    Err(fault) => result == Err::<(), Fault>(fault),
                }
            }),
        decreases fuel, 6nat, args@.len() - at,
    {
        reveal(lambda_parameters);
        reveal(desugar);
        if at >= args.len() {
            assert(names_of(parameters@) + Seq::<(Name, bool)>::empty() =~= names_of(parameters@));
            assert(trees_of(body_prelude@) + Seq::<Tree>::empty() =~= trees_of(body_prelude@));
            return Ok(());
        }
        let arg = args[at];
        let typ = match self.followed_type_of(program, arg) {
            Err(fault) => {
                return Err(fault);
            },
            Ok(typ) => typ,
        };
        let id = match self.take_next_id() {
            Err(fault) => {
                return Err(fault);
            },
            Ok(id) => id,
        };
        let param = Reference { definition: None, definition_id: id };
        assert(param@ == plain(id));
        let mutable = match self.pattern_is_mutable(program, arg) {
            Err(fault) => {
                return Err(fault);
            },
            Ok(mutable) => mutable,
        };
        let ghost taken = self.state();
        let ghost names_before = names_of(parameters@);
        let ghost prelude_before = trees_of(body_prelude@);
        match self.desugar_pattern(program, arg, id, typ, mutable, body_prelude, fuel) {
            Err(fault) => {
                return Err(fault);
            },
            Ok(()) => {},
        }
        let ghost first = desugar(*program, self.cache, arg, id, typ@, mutable, taken, fuel as nat).0->Ok_0;
        proof {
            lemma_names_of_push(parameters@, param, mutable);
        }
        parameters.push((param, mutable));
        let ghost bound = self.state();
        match self.lambda_parameters(program, args, at + 1, parameters, body_prelude, fuel) {
            Err(fault) => Err(fault),
            Ok(()) => {
                proof {
                    let rest = lambda_parameters(*program, self.cache, args@, (at + 1) as nat, bound, fuel as nat).0->Ok_0;
                    assert(names_before.push((plain(id), mutable)) + rest.0 =~= names_before + (seq![
                        (plain(id), mutable),
                    ] + rest.0));
                    assert(prelude_before + first + rest.1 =~= prelude_before + (first + rest.1));
                }
                Ok(())
            },
        }
    }

    /// Binds the captured variables of a closure from position `at` on: each gets a new
    /// variable, which is defined as the field with its number of the environment, and
    /// which the definition inside the lambda is lowered to. The definitions are added to
    /// `prelude`.
    pub fn lambda_captures(
        &mut self,
        environment: &Vec<ClosureEntry>,
        at: usize,
        parameter: DefinitionId,
        prelude: &mut Vec<Ast>,
    ) -> (result: Result<(), Fault>)
        ensures
            final(self).cache == old(self).cache,
            final(self).depth() == old(self).depth(),
            ({
                let expected = lambda_captures(old(self).cache, environment@, at as nat, parameter, old(self).state());
                match expected.0 {
                    Ok(trees) => result is Ok && trees_of(final(prelude)@) == trees_of(old(prelude)@) + trees
                        && final(self).state() == expected.1,
                    Err(fault) => result == Err::<(), Fault>(fault),
                }
            }),
        decreases environment@.len() - at,
    {
        reveal(lambda_captures);
        if at >= environment.len() {
            assert(trees_of(prelude@) + Seq::<Tree>::empty() =~= trees_of(prelude@));
            return Ok(());
        }
        if at > u32::MAX as usize {
            return Err(Fault::SizeOverflow);
        }
        let inner = environment[at].inner;
        let id = match self.take_next_id() {
            Err(fault) => {
                return Err(fault);
            },
            Ok(id) => id,
        };
        let param = Reference { definition: None, definition_id: id };
        assert(param@ == plain(id));
        if inner.0 >= self.cache.definition_infos.len() {
            return Err(Fault::UnknownDefinition(inner.0));
        }
        proof {
            self.lemma_state();
        }
        let typ = match &self.cache.definition_infos[inner.0].typ {
            Some(crate::types::GeneralizedType::MonoType(typ)) => match self.follow_all_bindings(typ) {
                Err(fault) => {
                    return Err(fault);
                },
                Ok(typ) => typ,
            },
            _ => {
                return Err(Fault::Malformed);
            },
        };
        self.insert_definition(inner, typ, Definition::Normal(param));
        let ghost before = trees_of(prelude@);
        let extract = definition_of(id, member_of(variable_of(parameter), at as u32));
        let ghost first = extract@;
        proof {
            lemma_trees_of_push(prelude@, extract);
        }
        prelude.push(extract);
        let ghost bound = self.state();
        match self.lambda_captures(environment, at + 1, parameter, prelude) {
            Err(fault) => Err(fault),
            Ok(()) => {
                proof {
                    let rest = lambda_captures(self.cache, environment@, (at + 1) as nat, parameter, bound).0->Ok_0;
                    assert(before.push(first) + rest =~= before + (seq![first] + rest));
                }
                Ok(())
            },
        }
    }

    /// Makes the parameter for the environment of a closure, which is added to
    /// `parameters`, and the definitions of the captured variables, which are added to
    /// `prelude`. For a lambda that captures nothing there is neither.
    pub fn environment_parameter(
        &mut self,
        environment: &Vec<ClosureEntry>,
        parameters: &mut Vec<(Reference, bool)>,
        prelude: &mut Vec<Ast>,
    ) -> (result: Result<(), Fault>)
        ensures
            final(self).cache == old(self).cache,
            final(self).depth() == old(self).depth(),
            ({
                let expected = environment_parameter(old(self).cache, environment@, old(self).state());
                match expected.0 {
                    Ok((names, trees)) => result is Ok && names_of(final(parameters)@) == names_of(old(parameters)@)
                        + names && trees_of(final(prelude)@) == trees_of(old(prelude)@) + trees && final(self).state() == expected.1,
                    Err(fault) => result == Err::<(), Fault>(fault),
                }
            }),
    {
        if environment.len() == 0 {
            assert(names_of(parameters@) + Seq::<(Name, bool)>::empty() =~= names_of(parameters@));
            assert(trees_of(prelude@) + Seq::<Tree>::empty() =~= trees_of(prelude@));
            return Ok(());
        }
        let id = match self.take_next_id() {
            Err(fault) => {
                return Err(fault);
            },
            Ok(id) => id,
        };
        let param = Reference { definition: None, definition_id: id };
        assert(param@ == plain(id));
        match self.lambda_captures(environment, 0, id, prelude) {
            Err(fault) => {
                return Err(fault);
            },
            Ok(()) => {},
        }
        let ghost names_before = names_of(parameters@);
        proof {
            lemma_names_of_push(parameters@, param, false);
            assert(names_before.push((plain(id), false)) =~= names_before + seq![(plain(id), false)]);
        }
        parameters.push((param, false));
        Ok(())
    }

    /// Adds to `values` the values that a closure captures, from position `at` on.
    pub fn closure_values(
        &mut self,
        program: &Program,
        environment: &Vec<ClosureEntry>,
        at: usize,
        values: &mut Vec<Ast>,
        fuel: u32,
    ) -> (result: Result<(), Fault>)
        ensures
            final(self).cache == old(self).cache,
            final(self).depth() == old(self).depth(),
            ({
                let expected = closure_values(
                    *program,
                    old(self).cache,
                    environment@,
                    at as nat,
                    old(self).state(),
                    fuel as nat,
                );
                match expected.0 {
                    Ok(more) => result is Ok && trees_of(final(values)@) == trees_of(old(values)@) + more && final(self).state() == expected.1,
                    Err(fault) => result == Err::<(), Fault>(fault),
                }
            }),
        decreases fuel, 6nat, environment@.len() - at,
    {
        reveal(closure_values);
        reveal(mono_definition_id);
        if at >= environment.len() {
            assert(trees_of(values@) + Seq::<Tree>::empty() =~= trees_of(values@));
            return Ok(());
        }
        let outer = environment[at].outer;
        let variable = environment[at].variable;
        if outer.0 >= self.cache.definition_infos.len() {
            return Err(Fault::UnknownDefinition(outer.0));
        }
        let typ = match &self.cache.definition_infos[outer.0].typ {
            Some(crate::types::GeneralizedType::MonoType(typ)) => typ.clone(),
            _ => {
                return Err(Fault::Malformed);
            },
        };
        let definition = match self.monomorphise_definition_id(
            program,
            outer,
            variable,
            &typ,
            &environment[at].bindings,
            fuel,
        ) {
            Err(fault) => {
                return Err(fault);
            },
            Ok(definition) => definition,
        };
        let value = match self.reference_definition(definition, &typ) {
            Err(fault) => {
                return Err(fault);
            },
            Ok(value) => value,
        };
        let ghost before = trees_of(values@);
        let ghost first = value@;
        proof {
            lemma_trees_of_push(values@, value);
        }
        values.push(value);
        let ghost state = self.state();
        match self.closure_values(program, environment, at + 1, values, fuel) {
            Err(fault) => Err(fault),
            Ok(()) => {
                proof {
                    let more = closure_values(*program, self.cache, environment@, (at + 1) as nat, state, fuel as nat).0->Ok_0;
                    assert(before.push(first) + more =~= before + (seq![first] + more));
                }
                Ok(())
            },
        }
    }

    /// Lowers a lambda to a function, or for a closure to the pair of a function and its
    /// environment, the tuple of the values it captures. Each parameter becomes a variable,
    /// and the environment is the last of them; what the captured variables and the
    /// patterns of the parameters stand for is put before the body.
    pub fn monomorphise_lambda(&mut self, program: &Program, id: AstId, fuel: u32) -> (result: Result<Ast, Fault>)
        requires
            program.has(id),
            program.node(id).kind is Lambda,
        ensures
            final(self).cache == old(self).cache,
            final(self).depth() == old(self).depth(),
            gives(result, mono_lambda(*program, old(self).cache, id, old(self).state(), fuel as nat), final(self).state()),
        decreases fuel, 7nat, 0nat,
    {
        reveal(mono_lambda);
        reveal(lambda_parameters);
        reveal(lambda_captures);
        reveal(mono);
        reveal(closure_values);
        let node = &program.nodes[id.0];
        match &node.kind {
            NodeKind::Lambda(args, body, environment) => {
                let t = match self.followed_type_of(program, id) {
                    Err(fault) => {
                        return Err(fault);
                    },
                    Ok(t) => t,
                };
                let typ = match self.get_function_type(program, &t, args) {
                    Err(fault) => {
                        return Err(fault);
                    },
                    Ok(typ) => typ,
                };
                let mut body_prelude: Vec<Ast> = Vec::new();
                let mut parameters: Vec<(Reference, bool)> = Vec::new();
                assert(names_of(parameters@) =~= Seq::<(Name, bool)>::empty());
                assert(trees_of(body_prelude@) =~= Seq::<Tree>::empty());
                let ghost st1 = self.state();
                match self.lambda_parameters(program, args, 0, &mut parameters, &mut body_prelude, fuel) {
                    Err(fault) => {
                        return Err(fault);
                    },
                    Ok(()) => {},
                }
                let ghost bound = lambda_parameters(*program, self.cache, args@, 0, st1, fuel as nat).0->Ok_0;
                let ghost st2 = self.state();
                proof {
                    assert(Seq::<(Name, bool)>::empty() + bound.0 =~= bound.0);
                    assert(Seq::<Tree>::empty() + bound.1 =~= bound.1);
                }
                let mut extracts: Vec<Ast> = Vec::new();
                assert(trees_of(extracts@) =~= Seq::<Tree>::empty());
                match self.environment_parameter(environment, &mut parameters, &mut extracts) {
                    Err(fault) => {
                        return Err(fault);
                    },
                    Ok(()) => {},
                }
                proof {
                    let made = environment_parameter(self.cache, environment@, st2).0->Ok_0;
                    assert(Seq::<Tree>::empty() + made.1 =~= made.1);
                    lemma_trees_of_append(extracts@, body_prelude@);
                }
                extracts.append(&mut body_prelude);
                let lowered = match self.monomorphise(program, *body, fuel) {
                    Err(fault) => {
                        return Err(fault);
                    },
                    Ok(lowered) => lowered,
                };
                let whole = if extracts.len() == 0 {
                    lowered
                } else {
                    proof {
                        lemma_trees_of_push(extracts@, lowered);
                    }
                    extracts.push(lowered);
                    sequence_of(extracts)
                };
                let function = lambda_of(parameters, whole, typ);
                if environment.len() == 0 {
                    Ok(function)
                } else {
                    let mut values: Vec<Ast> = Vec::new();
                    assert(trees_of(values@) =~= Seq::<Tree>::empty());
                    match self.closure_values(program, environment, 0, &mut values, fuel) {
                        Err(fault) => Err(fault),
                        Ok(()) => {
                            proof {
                                assert(Seq::<Tree>::empty() + trees_of(values@) =~= trees_of(values@));
                            }
                            let captured = self.tuple(values);
                            let mut both: Vec<Ast> = Vec::new();
                            both.push(function);
                            both.push(captured);
                            assert(trees_of(both@) =~= seq![both@[0]@, both@[1]@]);
                            Ok(self.tuple(both))
                        },
                    }
                }
            },
            _ => Err(Fault::Malformed),
        }
    }

    /// Lowers a call of an operation of the compiler.
    pub fn convert_builtin(&mut self, program: &Program, args: &Vec<AstId>, result_type: &Option<Type>, fuel: u32) -> (result:
        Result<Ast, Fault>)
        ensures
            final(self).cache == old(self).cache,
            final(self).depth() == old(self).depth(),
            gives(
                result,
                mono_builtin(*program, old(self).cache, args@, *result_type, old(self).state(), fuel as nat),
                final(self).state(),
            ),
        decreases fuel, 6nat, 0nat,
    {
        reveal(mono_builtin);
        reveal(mono);
        if args.len() == 0 {
            return Err(Fault::Malformed);
        }
        let name = match program.get(args[0]) {
            None => {
                return Err(Fault::Malformed);
            },
            Some(node) => match &node.kind {
                NodeKind::Literal(LiteralKind::String(text)) => text,
                _ => {
                    return Err(Fault::Malformed);
                },
            },
        };
        match binary_operation(name) {
            Some(op) => {
                if args.len() < 3 {
                    return Err(Fault::Malformed);
                }
                let lhs = match self.monomorphise(program, args[1], fuel) {
                    Err(fault) => {
                        return Err(fault);
                    },
                    Ok(lhs) => lhs,
                };
                let rhs = match self.monomorphise(program, args[2], fuel) {
                    Err(fault) => {
                        return Err(fault);
                    },
                    Ok(rhs) => rhs,
                };
                return Ok(binary_of(op, lhs, rhs));
            },
            None => {},
        }
        match cast_operation(name) {
            Some(op) => {
                if args.len() < 2 {
                    return Err(Fault::Malformed);
                }
                let lhs = match self.monomorphise(program, args[1], fuel) {
                    Err(fault) => {
                        return Err(fault);
                    },
                    Ok(lhs) => lhs,
                };
                let typ = match result_type {
                    None => {
                        return Err(Fault::Malformed);
                    },
                    Some(typ) => typ,
                };
                proof {
                    self.lemma_state();
                }
                let lowered = match self.convert_type(typ) {
                    Err(fault) => {
                        return Err(fault);
                    },
                    Ok(lowered) => lowered,
                };
                return Ok(cast_of(op, lhs, lowered));
            },
            None => {},
        }
        if *name == String::from_str("Offset") {
            if args.len() < 3 {
                return Err(Fault::Malformed);
            }
            let address = match self.monomorphise(program, args[1], fuel) {
                Err(fault) => {
                    return Err(fault);
                },
                Ok(address) => address,
            };
            let count = match self.monomorphise(program, args[2], fuel) {
                Err(fault) => {
                    return Err(fault);
                },
                Ok(count) => count,
            };
            let typ = match result_type {
                None => {
                    return Err(Fault::Malformed);
                },
                Some(typ) => typ,
            };
            let size = match self.size_of_type_arg0(typ) {
                Err(fault) => {
                    return Err(fault);
                },
                Ok(size) => size,
            };
            Ok(offset_of(address, count, size))
        } else if *name == String::from_str("SizeOf") {
            // The size is known now, so the call is replaced by it
            if args.len() < 2 {
                return Err(Fault::Malformed);
            }
            match program.get(args[1]) {
                None => Err(Fault::Malformed),
                Some(node) => match &node.typ {
                    None => Err(Fault::Malformed),
                    Some(typ) => match self.size_of_type_arg0(typ) {
                        Err(fault) => Err(fault),
                        Ok(size) => Ok(int_literal(size as u64, IntegerKind::Usz)),
                    },
                },
            }
        } else {
            Err(Fault::Malformed)
        }
    }

    /// Is the node a use of the definition that stands for the operations of the compiler?
    pub fn is_builtin_call(&self, program: &Program, function: AstId) -> (builtin: bool)
        ensures
            builtin == is_builtin(*program, function),
    {
        match program.get(function) {
            None => false,
            Some(node) => match &node.kind {
                NodeKind::Variable(variable) => match variable.definition {
                    Some(definition) => definition.0 == BUILTIN_ID,
                    None => false,
                },
                _ => false,
            },
        }
    }

    /// Lowers a call.
    pub fn monomorphise_call(&mut self, program: &Program, id: AstId, fuel: u32) -> (result: Result<Ast, Fault>)
        requires
            program.has(id),
            program.node(id).kind is FunctionCall,
        ensures
            final(self).cache == old(self).cache,
            final(self).depth() == old(self).depth(),
            gives(result, mono_call(*program, old(self).cache, id, old(self).state(), fuel as nat), final(self).state()),
        decreases fuel, 7nat, 0nat,
    {
        reveal(mono_call);
        reveal(mono_builtin);
        reveal(mono_each);
        reveal(mono);
        let node = &program.nodes[id.0];
        match &node.kind {
            NodeKind::FunctionCall(function, args) => {
                if self.is_builtin_call(program, *function) {
                    return self.convert_builtin(program, args, &node.typ, fuel);
                }
                // The arguments are lowered before the function, for the integer literals
                // among them whose kind is still to be settled.
                let mut values: Vec<Ast> = Vec::new();
                assert(args@.subrange(0, args@.len() as int) =~= args@);
                assert(trees_of(values@) =~= Seq::<Tree>::empty());
                match self.monomorphise_each(program, args, 0, &mut values, fuel) {
                    Err(fault) => {
                        return Err(fault);
                    },
                    Ok(()) => {},
                }
                proof {
                    let trees = mono_each(*program, old(self).cache, args@, old(self).state(), fuel as nat).0->Ok_0;
                    assert(Seq::<Tree>::empty() + trees =~= trees);
                }
                let callee = match self.monomorphise(program, *function, fuel) {
                    Err(fault) => {
                        return Err(fault);
                    },
                    Ok(callee) => callee,
                };
                let mut fixed = match fix_arg_mutability(values, &callee) {
                    Err(fault) => {
                        return Err(fault);
                    },
                    Ok(fixed) => fixed,
                };
                let typ = match program.get(*function) {
                    None => {
                        return Err(Fault::Malformed);
                    },
                    Some(found) => match &found.typ {
                        None => {
                            return Err(Fault::Malformed);
                        },
                        Some(typ) => typ,
                    },
                };
                proof {
                    self.lemma_state();
                }
                let function_type = match self.convert_type(typ) {
                    Err(fault) => {
                        return Err(fault);
                    },
                    Ok(function_type) => function_type,
                };
                let ghost layout = function_type@;
                proof {
                    assert(function_type.layout() is Function <==> function_type is Function);
                    assert(function_type.layout() is Tuple <==> function_type is Tuple);
                }
                match function_type {
                    crate::hir_types::Type::Tuple(parts) => {
                        let mut parts = parts;
                        assert(layout == Layout::Tuple(layouts_of(parts@)));
                        if parts.len() == 0 {
                            return Err(Fault::Malformed);
                        }
                        assert(layouts_of(parts@)[0] == parts@[0]@);
                        assert(parts@[0].layout() is Function <==> parts@[0] is Function);
                        let function_type = match parts.swap_remove(0) {
                            crate::hir_types::Type::Function(f) => f,
                            _ => {
                                return Err(Fault::Malformed);
                            },
                        };
                        // Take the closure apart into its function and its environment
                        let closure = match self.take_next_id() {
                            Err(fault) => {
                                return Err(fault);
                            },
                            Ok(closure) => closure,
                        };
                        let function_definition = definition_of(closure, callee);
                        let function = member_of(variable_of(closure), 0);
                        let environment = member_of(variable_of(closure), 1);
                        proof {
                            lemma_trees_of_push(fixed@, environment);
                        }
                        fixed.push(environment);
                        let call = call_of(function, fixed, function_type);
                        let mut statements: Vec<Ast> = Vec::new();
                        statements.push(function_definition);
                        statements.push(call);
                        assert(trees_of(statements@) =~= seq![function_definition@, call@]);
                        Ok(sequence_of(statements))
                    },
                    crate::hir_types::Type::Function(function_type) => {
                        assert(layout == crate::hir::function_layout(function_type));
                        Ok(call_of(callee, fixed, function_type))
                    },
                    _ => Err(Fault::Malformed),
                }
            },
            _ => Err(Fault::Malformed),
        }
    }
}

/// Monomorphise the program from the node `root`, lowering it by removing all generics,
/// traits, and what is there for the programmer only.
pub fn monomorphise(program: &Program, root: AstId, cache: ModuleCache) -> (result: Result<Ast, Fault>)
    ensures
        ({
            let start = MonoState {
                stack: Seq::empty(),
                memo: Seq::empty(),
                definitions: Seq::empty(),
                direct: seq![Seq::empty()],
                indirect: seq![Seq::empty()],
                direct_given: seq![Seq::empty()],
                indirect_given: seq![Seq::empty()],
                next_id: 0,
            };
            builds(result, mono(*program, cache, root, start, RECURSION_LIMIT as nat).0)
        }),
{
    let mut context = Context::new(cache);
    proof {
        let start = MonoState {
            stack: Seq::empty(),
            memo: Seq::empty(),
            definitions: Seq::empty(),
            direct: seq![Seq::empty()],
            indirect: seq![Seq::empty()],
            direct_given: seq![Seq::empty()],
            indirect_given: seq![Seq::empty()],
            next_id: 0,
        };
        let st = context.state();
        assert(st.stack =~= start.stack);
        assert(st.memo =~= start.memo);
        assert(st.definitions =~= start.definitions);
        assert(st.direct =~~= start.direct);
        assert(st.indirect =~~= start.indirect);
        assert(st.direct_given =~~= start.direct_given);
        assert(st.indirect_given =~~= start.indirect_given);
    }
    context.monomorphise(program, root, RECURSION_LIMIT)
}

} // verus!
