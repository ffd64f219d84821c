//! The parts of monomorphisation that do not walk the program: literals, the types of
//! functions, the arguments of calls, constructors and declarations.
use vstd::prelude::*;
use vstd::string::StringExecFns;
use crate::ast::{LiteralKind, NodeKind, Program};
use crate::cache::{ModuleCache, Shape, TypeInfoBody};
use crate::context::{Context, Definition};
use crate::emit::builds;
use crate::error::Fault;
use crate::hir::{
    clone_names, int_literal, lemma_trees_of_push, names_of, trees_of, unit_literal, Ast, Builtin,
    CastOp, Literal, Name, Tree, Variable,
};
use crate::hir_types::{layouts_of, IntegerKind, Layout, PrimitiveType};
use crate::layout::fields_of;
use crate::monomorphise_spec::{
    addresses_for_mutable, field_index, field_position, fixed_args, function_args,
    function_type_of, is_mutable_pattern, least, mono_literal, pointers_for_mutable,
    size_of_argument,
};
use crate::types::{AstId, Term, Type};

verus! {

impl Context {
    /// What a literal is lowered to.
    pub fn monomorphise_literal(&self, kind: &LiteralKind) -> (result: Result<Ast, Fault>)
        ensures
            builds(result, mono_literal(*kind, self.cache, self.state())),
    {
        reveal(mono_literal);
        proof {
            self.lemma_state();
        }
        match kind {
            LiteralKind::Integer(n, kind) => match self.convert_integer_kind(*kind) {
                Err(fault) => Err(fault),
                Ok(kind) => Ok(int_literal(*n, kind)),
            },
            LiteralKind::Float(f) => Ok(Ast::Literal(Literal::Float(*f))),
            LiteralKind::String(s) => {
                let len = int_literal(s.as_str().len() as u64, IntegerKind::Usz);
                let c_string = Ast::Literal(Literal::CString(s.clone()));
                let mut fields: Vec<Ast> = Vec::new();
                fields.push(c_string);
                fields.push(len);
                assert(trees_of(fields@) =~= seq![fields@[0]@, fields@[1]@]);
                Ok(Ast::Tuple(fields))
            },
            LiteralKind::Char(c) => Ok(Ast::Literal(Literal::Char(*c))),
            LiteralKind::Bool(b) => Ok(Ast::Literal(Literal::Bool(*b))),
            LiteralKind::Unit => Ok(unit_literal()),
        }
    }

    /// Is the pattern one for something mutable?
    pub fn pattern_is_mutable(&self, program: &Program, pattern: AstId) -> (result: Result<bool, Fault>)
        ensures
            result == is_mutable_pattern(*program, self.cache, pattern),
    {
        reveal(is_mutable_pattern);
        match program.get(pattern) {
            None => Err(Fault::Malformed),
            Some(node) => match &node.kind {
                NodeKind::TypeAnnotation(_, mutable) => Ok(*mutable),
                NodeKind::Variable(var) => match var.definition {
                    None => Err(Fault::Malformed),
                    Some(definition) => {
                        if definition.0 >= self.cache.definition_infos.len() {
                            Err(Fault::UnknownDefinition(definition.0))
                        } else {
                            Ok(self.cache.definition_infos[definition.0].mutable)
                        }
                    },
                },
                _ => Ok(false),
            },
        }
    }

    /// The parameters of a function where each whose argument is a mutable pattern has
    /// become a pointer.
    #[verifier::loop_isolation(false)]
    pub fn change_mutable_args_to_pointers(
        &self,
        program: &Program,
        parameters: Vec<crate::hir_types::Type>,
        args: &Vec<AstId>,
    ) -> (result: Result<Vec<crate::hir_types::Type>, Fault>)
        requires
            parameters@.len() >= args@.len(),
        ensures
            match pointers_for_mutable(*program, self.cache, layouts_of(parameters@), args@, args@.len()) {
                Ok(changed) => result matches Ok(found) && layouts_of(found@) == changed,
                Err(fault) => result matches Err(f) && f == fault,
            },
    {
        reveal(is_mutable_pattern);
        let ghost start = layouts_of(parameters@);
        let mut parameters = parameters;
        let mut i: usize = 0;
        while i < args.len()
            invariant
                i <= args.len() <= parameters@.len(),
                parameters@.len() == start.len(),
                pointers_for_mutable(*program, self.cache, start, args@, i as nat) == Ok::<Seq<Layout>, Fault>(
                    layouts_of(parameters@),
                ),
            decreases args.len() - i,
        {
            match self.pattern_is_mutable(program, args[i]) {
                Err(fault) => {
                    proof {
                        assert(pointers_for_mutable(*program, self.cache, start, args@, (i + 1) as nat) == Err::<
                            Seq<Layout>,
                            Fault,
                        >(fault));
                        lemma_pointers_fail(*program, self.cache, start, args@, (i + 1) as nat, args@.len());
                    }
                    return Err(fault);
                },
                Ok(true) => {
                    let ghost before = parameters@;
                    parameters[i] = crate::hir_types::Type::Primitive(PrimitiveType::Pointer);
                    assert(layouts_of(parameters@) =~= layouts_of(before).update(
                        i as int,
                        Layout::Primitive(PrimitiveType::Pointer),
                    ));
                },
                Ok(false) => {},
            }
            i += 1;
        }
        Ok(parameters)
    }

    /// The type of the function that a lambda is lowered to.
    pub fn get_function_type(&mut self, program: &Program, typ: &Type, args: &Vec<AstId>) -> (result: Result<
        crate::hir_types::FunctionType,
        Fault,
    >)
        ensures
            final(self).same_but_types(old(self)),
            ({
                let (expected, state) = function_type_of(*program, old(self).cache, typ@, args@, old(self).state());
                match expected {
                    Ok(layout) => result matches Ok(f) && crate::hir::function_layout(f) == layout && final(self).state() == state,
                    Err(fault) => result matches Err(f) && f == fault,
                }
            }),
    {
        reveal(function_type_of);
        let lowered = match self.convert_type(typ) {
            Err(fault) => {
                return Err(fault);
            },
            Ok(lowered) => lowered,
        };
        let ghost layout = lowered@;
        proof {
            assert(lowered.layout() is Function <==> lowered is Function);
            assert(lowered.layout() is Tuple <==> lowered is Tuple);
        }
        let function = match lowered {
            crate::hir_types::Type::Function(f) => {
                assert(layout == crate::hir::function_layout(f));
                f
            },
            crate::hir_types::Type::Tuple(values) => {
                let mut values = values;
                assert(layout == Layout::Tuple(layouts_of(values@)));
                if values.len() == 0 {
                    return Err(Fault::Malformed);
                }
                let ghost all = layouts_of(values@);
                assert(all[0] == values@[0]@);
                assert(values@[0].layout() is Function <==> values@[0] is Function);
                match values.swap_remove(0) {
                    crate::hir_types::Type::Function(f) => {
                        assert(all[0] == crate::hir::function_layout(f));
                        f
                    },
                    _ => {
                        return Err(Fault::Malformed);
                    },
                }
            },
            _ => {
                return Err(Fault::Malformed);
            },
        };
        if function.parameters.len() < args.len() {
            return Err(Fault::Malformed);
        }
        let return_type = function.return_type;
        let is_varargs = function.is_varargs;
        match self.change_mutable_args_to_pointers(program, function.parameters, args) {
            Err(fault) => Err(fault),
            Ok(parameters) => Ok(crate::hir_types::FunctionType { parameters, return_type, is_varargs }),
        }
    }

    /// The size in bytes of the one argument that the type is applied to.
    pub fn size_of_type_arg0(&self, ptr_type: &Type) -> (result: Result<u32, Fault>)
        ensures
            result == size_of_argument(ptr_type@, self.cache, self.state()),
    {
        reveal(size_of_argument);
        proof {
            self.lemma_state();
        }
        match self.follow_all_bindings(ptr_type) {
            Err(fault) => Err(fault),
            Ok(Type::TypeApplication(constructor, arg_types)) => {
                assert(Type::TypeApplication(constructor, arg_types)@ == Term::TypeApplication(
                    Box::new(constructor@),
                    crate::types::terms_of(arg_types@),
                ));
                if arg_types.len() != 1 {
                    return Err(Fault::Malformed);
                }
                assert(crate::types::terms_of(arg_types@)[0] == arg_types@[0]@);
                match self.size_of_type(&arg_types[0]) {
                    Err(fault) => Err(fault),
                    Ok(size) => {
                        if size > u32::MAX as usize {
                            Err(Fault::SizeOverflow)
                        } else {
                            Ok(size as u32)
                        }
                    },
                }
            },
            Ok(_) => Err(Fault::Malformed),
        }
    }

    /// The index of the field with the name in the struct that the type is.
    #[verifier::loop_isolation(false)]
    pub fn get_field_index(&self, field_name: &String, typ: &Type, fuel: u32) -> (result: Result<u32, Fault>)
        ensures
            result == field_index(field_name@, typ@, self.cache, self.state(), fuel as nat),
        decreases fuel,
    {
        reveal(field_index);
        match self.follow_bindings_shallow(typ) {
            Err(fault) => Err(fault),
            Ok(Ok(Type::UserDefined(id))) => {
                if id.0 >= self.cache.type_infos.len() {
                    return Err(Fault::UnknownType(id.0));
                }
                match &self.cache.type_infos[id.0].body {
                    TypeInfoBody::Struct(fields) => {
                        let ghost all = fields_of(fields@);
                        assert(self.cache.type_infos@[id.0 as int]@.body == Shape::Struct(all));
                        let mut i: usize = 0;
                        while i < fields.len()
                            invariant
                                i <= fields.len(),
                                all == fields_of(fields@),
                                field_position(all, field_name@, 0) == field_position(all, field_name@, i as nat),
                            decreases fields.len() - i,
                        {
                            if fields[i].name == *field_name {
                                if i > u32::MAX as usize {
                                    return Err(Fault::SizeOverflow);
                                }
                                return Ok(i as u32);
                            }
                            i += 1;
                        }
                        Err(Fault::Malformed)
                    },
                    _ => Err(Fault::Malformed),
                }
            },
            Ok(Ok(Type::TypeApplication(constructor, _))) => {
                if fuel == 0 {
                    Err(Fault::RecursionLimit)
                } else {
                    self.get_field_index(field_name, &constructor, fuel - 1)
                }
            },
            Ok(_) => Err(Fault::Malformed),
        }
    }
}

proof fn lemma_pointers_fail(
    program: Program,
    cache: ModuleCache,
    parameters: Seq<Layout>,
    args: Seq<AstId>,
    n: nat,
    m: nat,
)
    requires
        n <= m <= args.len(),
        m <= parameters.len(),
    ensures
        pointers_for_mutable(program, cache, parameters, args, n) is Err ==> pointers_for_mutable(
            program,
            cache,
            parameters,
            args,
            m,
        ) == pointers_for_mutable(program, cache, parameters, args, n),
    decreases m,
{
    if n < m {
        lemma_pointers_fail(program, cache, parameters, args, n, (m - 1) as nat);
    }
}

/// The parameters of the function that the value is, as far as the tree shows them.
pub fn get_function_args(function: &Ast) -> (result: Result<Vec<(Variable, bool)>, Fault>)
    ensures
        match function_args(function@) {
            Ok(args) => result matches Ok(found) && names_of(found@) == args,
            Err(fault) => result matches Err(f) && f == fault,
        },
    decreases function,
{
    match function {
        Ast::Variable(variable) => match &variable.definition {
            Some(def) => {
                assert(function@ == Tree::Variable(variable@));
                assert(variable.name().definition == Some(Box::new((**def).tree())));
                get_function_args(def)
            },
            None => {
                assert(function@ == Tree::Variable(variable@));
                assert(variable.name().definition.is_none());
                let none: Vec<(Variable, bool)> = Vec::new();
                assert(names_of(none@) =~= Seq::<(Name, bool)>::empty());
                Ok(none)
            },
        },
        Ast::Lambda(lambda) => {
            assert(function@ is Lambda && function@->Lambda_0 == names_of(lambda.args@));
            Ok(clone_names(&lambda.args))
        },
        Ast::Sequence(statements) => {
            assert(function@ == Tree::Sequence(trees_of(statements@)));
            if statements.len() == 0 {
                Err(Fault::Malformed)
            } else {
                assert(trees_of(statements@)[statements@.len() - 1] == statements@[statements@.len() - 1]@);
                get_function_args(&statements[statements.len() - 1])
            }
        },
        Ast::Definition(def) => {
            assert(function@ == Tree::Definition(def.variable, Box::new((*def.expr)@)));
            get_function_args(&def.expr)
        },
        _ => {
            assert(!(function@ is Variable) && !(function@ is Lambda) && !(function@ is Sequence) && !(function@
                is Definition));
            let none: Vec<(Variable, bool)> = Vec::new();
            assert(names_of(none@) =~= Seq::<(Name, bool)>::empty());
            Ok(none)
        },
    }
}

proof fn lemma_addresses_fail(args: Seq<Tree>, expected: Seq<(Name, bool)>, n: nat, m: nat)
    requires
        n <= m <= args.len(),
        m <= expected.len(),
    ensures
        addresses_for_mutable(args, expected, n) is Err ==> addresses_for_mutable(args, expected, m)
            == addresses_for_mutable(args, expected, n),
    decreases m,
{
    if n < m {
        lemma_addresses_fail(args, expected, n, (m - 1) as nat);
    }
}

/// The arguments of a call as the function takes them: for a mutable parameter the
/// address in place of the load from it.
#[verifier::loop_isolation(false)]
pub fn fix_arg_mutability(args: Vec<Ast>, function: &Ast) -> (result: Result<Vec<Ast>, Fault>)
    ensures
        match fixed_args(trees_of(args@), function@) {
            Ok(fixed) => result matches Ok(found) && trees_of(found@) == fixed,
            Err(fault) => result matches Err(f) && f == fault,
        },
{
    reveal(fixed_args);
    let expected = match get_function_args(function) {
        Err(fault) => {
            return Err(fault);
        },
        Ok(expected) => expected,
    };
    let ghost start = trees_of(args@);
    let ghost names = names_of(expected@);
    let mut rest = args;
    let mut fixed: Vec<Ast> = Vec::new();
    let count = if rest.len() <= expected.len() {
        rest.len()
    } else {
        expected.len()
    };
    let mut taken: Vec<Ast> = Vec::new();
    // The arguments are taken from the back, so that each can be moved out.
    let total = rest.len();
    let mut k: usize = total;
    while k > 0
        invariant
            k <= total,
            total == start.len(),
            rest@.len() == k,
            taken@.len() == total - k,
            forall|j: int| 0 <= j < k ==> (#[trigger] rest@[j])@ == start[j],
            forall|j: int| 0 <= j < total - k ==> (#[trigger] taken@[j])@ == start[total - 1 - j],
        decreases k,
    {
        let last = rest.pop().unwrap();
        taken.push(last);
        k -= 1;
    }
    let mut i: usize = 0;
    assert(trees_of(fixed@) =~= start.take(0));
    while i < total
        invariant
            i <= total,
            total == start.len(),
            count == least(start.len(), names.len()),
            names == names_of(expected@),
            taken@.len() == total - i,
            fixed@.len() == i,
            forall|j: int| 0 <= j < total - i ==> (#[trigger] taken@[j])@ == start[total - 1 - j],
            ({
                let upto = least(i as nat, count as nat);
                addresses_for_mutable(start, names, upto) matches Ok(changed) && trees_of(fixed@) == changed.take(
                    i as int,
                )
            }),
        decreases total - i,
    {
        let ghost upto = least(i as nat, count as nat);
        let ghost changed = addresses_for_mutable(start, names, upto)->Ok_0;
        proof {
            lemma_addresses_keep(start, names, upto);
        }
        let arg = taken.pop().unwrap();
        assert(arg@ == start[i as int]);
        if i < count && expected[i].1 {
            assert(names[i as int] == (expected@[i as int].0@, expected@[i as int].1));
            match arg {
                Ast::Builtin(Builtin::Cast(CastOp::Deref, inner, typ)) => {
                    assert(start[i as int] == Tree::Cast(CastOp::Deref, Box::new(inner@), typ@));
                    let address = *inner;
                    proof {
                        lemma_trees_of_push(fixed@, address);
                        let next = addresses_for_mutable(start, names, (i + 1) as nat)->Ok_0;
                        lemma_addresses_keep(start, names, (i + 1) as nat);
                        assert(trees_of(fixed@).push(address@) =~= next.take(i + 1));
                    }
                    fixed.push(address);
                },
                other => {
                    proof {
                        assert(!(start[i as int] matches Tree::Cast(CastOp::Deref, _, _)));
                        assert(addresses_for_mutable(start, names, (i + 1) as nat) == Err::<Seq<Tree>, Fault>(
                            Fault::Malformed,
                        ));
                        lemma_addresses_fail(start, names, (i + 1) as nat, count as nat);
                    }
                    return Err(Fault::Malformed);
                },
            }
        } else {
            proof {
                lemma_trees_of_push(fixed@, arg);
                let next_upto = least((i + 1) as nat, count as nat);
                let next = addresses_for_mutable(start, names, next_upto)->Ok_0;
                lemma_addresses_keep(start, names, next_upto);
                assert(trees_of(fixed@).push(arg@) =~= next.take(i + 1));
            }
            fixed.push(arg);
        }
        i += 1;
    }
    proof {
        let changed = addresses_for_mutable(start, names, count as nat)->Ok_0;
        lemma_addresses_keep(start, names, count as nat);
        assert(changed.take(total as int) =~= changed);
    }
    Ok(fixed)
}

/// Turning the first `n` arguments into addresses keeps the number of arguments, and the
/// arguments from `n` on.
proof fn lemma_addresses_keep(args: Seq<Tree>, expected: Seq<(Name, bool)>, n: nat)
    ensures
        addresses_for_mutable(args, expected, n) matches Ok(changed) ==> changed.len() == args.len() && forall|
            j: int,
        |
            n <= j < args.len() ==> #[trigger] changed[j] == args[j],
    decreases n,
{
    if n == 0 || n > args.len() || n > expected.len() {
    } else {
        lemma_addresses_keep(args, expected, (n - 1) as nat);
    }
}

} // verus!
