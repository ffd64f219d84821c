use ante::ast::{ClosureEntry, LiteralKind, Node, NodeKind, Program, Variable};
use ante::cache::{
    DefinitionInfo, DefinitionKind, Field, ImplInfo, ModuleCache, TraitInfo, TypeInfo, TypeInfoBody,
    VariableInfo,
};
use ante::error::{Fault, Location, UnificationError};
use ante::hir;
use ante::hir_types;
use ante::infer_impls::{check_impl_propagated_traits, infer_ast};
use ante::context::{Context, Definition};
use ante::monomorphise::monomorphise;
use ante::traits::{Callsite, ConstraintSignature, RequiredTrait};
use ante::types::{
    AstId, DefinitionInfoId, FunctionType, GeneralizedType, ImplInfoId, ImplScopeId, IntegerKind,
    LetBindingLevel, PrimitiveType, TraitConstraintId, TraitInfoId, Type, TypeInfoId, VariableId,
};
use std::collections::HashMap;
use std::rc::Rc;

fn i32_type() -> Type {
    Type::Primitive(PrimitiveType::IntegerType(IntegerKind::I32))
}

fn unit_type() -> Type {
    Type::Primitive(PrimitiveType::UnitType)
}

fn function(parameters: Vec<Type>, return_type: Type, is_varargs: bool) -> Type {
    Type::Function(FunctionType {
        parameters,
        return_type: Box::new(return_type),
        environment: Box::new(unit_type()),
        is_varargs,
    })
}

fn at_line(line: u32) -> Location {
    Location { file: 0, line, column: 1 }
}

/// A program and its cache under construction. The cache starts with the pair type and
/// the string type, and with the definition that stands for the compiler's operations.
struct Builder {
    program: Program,
    cache: ModuleCache,
}

impl Builder {
    fn new() -> Builder {
        let mut cache = ModuleCache::new();
        let a = cache.next_type_variable_id(LetBindingLevel(0));
        let b = cache.next_type_variable_id(LetBindingLevel(0));
        cache.type_infos.push(TypeInfo {
            args: vec![a, b],
            name: String::from(","),
            body: TypeInfoBody::Struct(vec![
                Field { name: String::from("first"), field_type: Type::TypeVariable(a), location: Location::builtin() },
                Field { name: String::from("second"), field_type: Type::TypeVariable(b), location: Location::builtin() },
            ]),
            location: Location::builtin(),
        });
        cache.type_infos.push(TypeInfo {
            args: vec![],
            name: String::from("string"),
            body: TypeInfoBody::Struct(vec![
                Field {
                    name: String::from("c_string"),
                    field_type: Type::Primitive(PrimitiveType::Ptr),
                    location: Location::builtin(),
                },
                Field {
                    name: String::from("length"),
                    field_type: Type::Primitive(PrimitiveType::IntegerType(IntegerKind::Usz)),
                    location: Location::builtin(),
                },
            ]),
            location: Location::builtin(),
        });
        // The trait of the integer types is trait 0.
        cache.trait_infos.push(TraitInfo {
            name: String::from("Int"),
            typeargs: Vec::new(),
            fundeps: Vec::new(),
            definitions: Vec::new(),
            trait_node: None,
            location: Location::builtin(),
        });
        cache.int_trait = Some(TraitInfoId(0));
        let mut builder = Builder { program: Program { nodes: Vec::new() }, cache };
        // The operations of the compiler: forall r. (string, ...) -> r
        let r = builder.cache.next_type_variable_id(LetBindingLevel(3));
        let builtin = builder.define("builtin", None);
        assert_eq!(builtin, DefinitionInfoId(0));
        builder.cache.definition_infos[0].typ = Some(GeneralizedType::PolyType(
            vec![r],
            function(vec![Type::UserDefined(TypeInfoId(1))], Type::TypeVariable(r), true),
        ));
        builder
    }

    fn define(&mut self, name: &str, definition: Option<DefinitionKind>) -> DefinitionInfoId {
        self.cache.definition_infos.push(DefinitionInfo {
            name: String::from(name),
            location: Location::builtin(),
            definition,
            trait_info: None,
            trait_impl: None,
            required_traits: Vec::new(),
            mutable: false,
            typ: None,
        });
        DefinitionInfoId(self.cache.definition_infos.len() - 1)
    }

    fn node(&mut self, kind: NodeKind) -> AstId {
        let line = self.program.nodes.len() as u32 + 1;
        self.program.nodes.push(Node { kind, location: at_line(line), typ: None });
        AstId(self.program.nodes.len() - 1)
    }

    /// An occurrence of the variable: as a pattern or as a use.
    fn variable(&mut self, name: &str, definition: DefinitionInfoId) -> AstId {
        let line = self.program.nodes.len() as u32 + 1;
        self.cache.variable_infos.push(VariableInfo {
            name: String::from(name),
            location: at_line(line),
            required_impls: Vec::new(),
        });
        let id = VariableId(self.cache.variable_infos.len() - 1);
        self.node(NodeKind::Variable(Variable {
            name: String::from(name),
            definition: Some(definition),
            id: Some(id),
            impl_scope: Some(ImplScopeId(0)),
            instantiation_mapping: Rc::new(HashMap::new()),
        }))
    }

    fn integer(&mut self, value: u64) -> AstId {
        self.node(NodeKind::Literal(LiteralKind::Integer(value, IntegerKind::I32)))
    }

    /// An integer without a suffix.
    fn number(&mut self, value: u64) -> AstId {
        self.node(NodeKind::Literal(LiteralKind::Integer(value, IntegerKind::Unknown)))
    }

    fn text(&mut self, value: &str) -> AstId {
        self.node(NodeKind::Literal(LiteralKind::String(String::from(value))))
    }

    fn call(&mut self, function: AstId, args: Vec<AstId>) -> AstId {
        self.node(NodeKind::FunctionCall(function, args))
    }

    /// A call of an operation of the compiler.
    fn operation(&mut self, name: &str, args: Vec<AstId>) -> AstId {
        let builtin = self.variable("builtin", DefinitionInfoId(0));
        let mut all = vec![self.text(name)];
        all.extend(args);
        self.call(builtin, all)
    }

    /// `name = rhs` at the top level; the definition is returned with its node.
    fn top_level(&mut self, definition: DefinitionInfoId, name: &str, rhs: AstId) -> AstId {
        let pattern = self.variable(name, definition);
        let node = self.node(NodeKind::Definition(pattern, rhs, false, Some(LetBindingLevel(2))));
        self.cache.definition_infos[definition.0].definition = Some(DefinitionKind::Definition(node));
        node
    }

    /// The node with the type it is annotated with.
    fn annotated(&mut self, node: AstId, typ: Type) -> AstId {
        let annotation = self.node(NodeKind::TypeAnnotation(node, false));
        self.program.nodes[annotation.0].typ = Some(typ);
        annotation
    }

    fn type_of(&self, node: AstId) -> Type {
        let typ = self.program.nodes[node.0].typ.as_ref().expect("the node has a type");
        resolved(typ, &self.cache)
    }
}

/// The type with every bound variable in it replaced by what it is bound to.
fn resolved(typ: &Type, cache: &ModuleCache) -> Type {
    match ante::unify::follow_bindings_in_cache(typ, cache).expect("the type can be followed") {
        Type::Function(f) => Type::Function(FunctionType {
            parameters: f.parameters.iter().map(|parameter| resolved(parameter, cache)).collect(),
            return_type: Box::new(resolved(&f.return_type, cache)),
            environment: Box::new(resolved(&f.environment, cache)),
            is_varargs: f.is_varargs,
        }),
        Type::TypeApplication(constructor, args) => Type::TypeApplication(
            Box::new(resolved(&constructor, cache)),
            args.iter().map(|arg| resolved(arg, cache)).collect(),
        ),
        other => other,
    }
}

fn count(text: &str, part: &str) -> usize {
    text.matches(part).count()
}

fn lowered_i32() -> hir_types::Type {
    hir_types::Type::Primitive(hir_types::PrimitiveType::Integer(hir_types::IntegerKind::I32))
}

/// `id x = x; id 1; id true`
fn identity_program() -> (Builder, DefinitionInfoId, AstId, AstId, AstId) {
    let mut b = Builder::new();
    let x = b.define("x", Some(DefinitionKind::Parameter));
    let id = b.define("id", None);
    let x_pattern = b.variable("x", x);
    let x_use = b.variable("x", x);
    let lambda = b.node(NodeKind::Lambda(vec![x_pattern], x_use, Vec::new()));
    let definition = b.top_level(id, "id", lambda);
    let first = b.variable("id", id);
    let one = b.number(1);
    let first_call = b.call(first, vec![one]);
    let second = b.variable("id", id);
    let yes = b.node(NodeKind::Literal(LiteralKind::Bool(true)));
    let second_call = b.call(second, vec![yes]);
    let root = b.node(NodeKind::Sequence(vec![definition, first_call, second_call]));
    (b, id, first_call, second_call, root)
}

#[test]
fn identity_is_generalised() {
    let (mut b, id, first_call, second_call, root) = identity_program();
    assert_eq!(infer_ast(&mut b.program, root, &mut b.cache), Ok(()));
    assert!(b.cache.diagnostics.is_empty(), "{:?}", b.cache.diagnostics);
    match &b.cache.definition_infos[id.0].typ {
        Some(GeneralizedType::PolyType(variables, Type::Function(f))) => {
            assert_eq!(variables.len(), 1);
            let a = Type::TypeVariable(variables[0]);
            assert_eq!(f.parameters.len(), 1);
            assert_eq!(resolved(&f.parameters[0], &b.cache), a);
            assert_eq!(resolved(&f.return_type, &b.cache), a);
            assert_eq!(*f.environment, unit_type());
        },
        other => panic!("the type of id is {:?}", other),
    }
    assert_eq!(b.type_of(first_call), i32_type());
    assert_eq!(b.type_of(second_call), Type::Primitive(PrimitiveType::BooleanType));
    assert_eq!(b.type_of(root), Type::Primitive(PrimitiveType::BooleanType));
    // A use binds its own instance, never the quantified variable.
    match &b.cache.definition_infos[id.0].typ {
        Some(GeneralizedType::PolyType(variables, _)) => {
            assert!(matches!(b.cache.type_bindings[variables[0]], ante::cache::TypeBinding::Unbound(..)))
        },
        other => panic!("{:?}", other),
    }
    assert_eq!(b.cache.current_level, 0);
}

#[test]
fn identity_used_at_two_types_gives_two_lambdas() {
    let (mut b, _, _, _, root) = identity_program();
    assert_eq!(infer_ast(&mut b.program, root, &mut b.cache), Ok(()));
    let lowered = monomorphise(&b.program, root, b.cache).expect("the program can be lowered");
    let text = format!("{:?}", lowered);
    assert_eq!(count(&text, "Lambda(Lambda {"), 2, "{}", text);
    let statements = match &lowered {
        hir::Ast::Sequence(statements) => statements,
        other => panic!("{:?}", other),
    };
    assert_eq!(statements.len(), 3);
    assert!(matches!(&statements[0], hir::Ast::Literal(hir::Literal::Unit)), "{:?}", statements[0]);
    let mut ids = Vec::new();
    let mut parameters = Vec::new();
    for statement in &statements[1..] {
        match statement {
            hir::Ast::FunctionCall(call) => {
                assert_eq!(call.args.len(), 1);
                parameters.push(call.function_type.parameters[0].clone());
                match &*call.function {
                    hir::Ast::Variable(variable) => {
                        ids.push(variable.definition_id);
                        match variable.definition.as_deref() {
                            Some(hir::Ast::Definition(definition)) => {
                                assert_eq!(definition.variable, variable.definition_id);
                                assert!(matches!(&*definition.expr, hir::Ast::Lambda(_)));
                            },
                            other => panic!("{:?}", other),
                        }
                    },
                    other => panic!("{:?}", other),
                }
            },
            other => panic!("{:?}", other),
        }
    }
    assert_ne!(ids[0], ids[1]);
    assert_eq!(parameters[0], lowered_i32());
    assert_eq!(parameters[1], hir_types::Type::Primitive(hir_types::PrimitiveType::Boolean));
    assert_eq!(count(&text, "Literal(Integer(1, I32))"), 1, "{}", text);
}

/// `(a, b) = (1, 2.0); a`
fn pair_program() -> (Builder, AstId, AstId) {
    let mut b = Builder::new();
    let pair = b.define(",", Some(DefinitionKind::TypeConstructor(None)));
    let first = b.cache.type_infos[0].args[0];
    let second = b.cache.type_infos[0].args[1];
    b.cache.definition_infos[pair.0].typ = Some(GeneralizedType::PolyType(
        vec![first, second],
        function(
            vec![Type::TypeVariable(first), Type::TypeVariable(second)],
            Type::TypeApplication(
                Box::new(Type::UserDefined(TypeInfoId(0))),
                vec![Type::TypeVariable(first), Type::TypeVariable(second)],
            ),
            false,
        ),
    ));
    let a = b.define("a", None);
    let bb = b.define("b", None);
    let a_pattern = b.variable("a", a);
    let b_pattern = b.variable("b", bb);
    let comma = b.variable(",", pair);
    let pattern = b.call(comma, vec![a_pattern, b_pattern]);
    let one = b.integer(1);
    let two = b.node(NodeKind::Literal(LiteralKind::Float(2.0f64.to_bits())));
    let comma = b.variable(",", pair);
    let rhs = b.call(comma, vec![one, two]);
    let definition = b.node(NodeKind::Definition(pattern, rhs, false, Some(LetBindingLevel(2))));
    b.cache.definition_infos[a.0].definition = Some(DefinitionKind::Definition(definition));
    b.cache.definition_infos[bb.0].definition = Some(DefinitionKind::Definition(definition));
    let a_use = b.variable("a", a);
    let root = b.node(NodeKind::Sequence(vec![definition, a_use]));
    (b, a_use, root)
}

#[test]
fn pair_pattern_types_its_variables() {
    let (mut b, a_use, root) = pair_program();
    assert_eq!(infer_ast(&mut b.program, root, &mut b.cache), Ok(()));
    assert!(b.cache.diagnostics.is_empty(), "{:?}", b.cache.diagnostics);
    assert_eq!(b.type_of(a_use), i32_type());
    assert_eq!(b.type_of(root), i32_type());
}

#[test]
fn pair_pattern_is_taken_apart_by_two_extracts() {
    let (mut b, _, root) = pair_program();
    assert_eq!(infer_ast(&mut b.program, root, &mut b.cache), Ok(()));
    let lowered = monomorphise(&b.program, root, b.cache).expect("the program can be lowered");
    let text = format!("{:?}", lowered);
    let statements = match &lowered {
        hir::Ast::Sequence(statements) => statements,
        other => panic!("{:?}", other),
    };
    assert_eq!(statements.len(), 2, "{}", text);
    let parts = match &statements[0] {
        hir::Ast::Sequence(parts) => parts,
        other => panic!("{:?}", other),
    };
    assert_eq!(parts.len(), 3, "{}", text);
    let whole = match &parts[0] {
        hir::Ast::Definition(definition) => definition.variable,
        other => panic!("{:?}", other),
    };
    let mut defined = Vec::new();
    for (index, part) in parts[1..].iter().enumerate() {
        match part {
            hir::Ast::Definition(definition) => {
                defined.push(definition.variable);
                match &*definition.expr {
                    hir::Ast::MemberAccess(value, field) => {
                        assert_eq!(*field as usize, index);
                        match &**value {
                            hir::Ast::Variable(variable) => assert_eq!(variable.definition_id, whole),
                            other => panic!("{:?}", other),
                        }
                    },
                    other => panic!("{:?}", other),
                }
            },
            other => panic!("{:?}", other),
        }
    }
    match &statements[1] {
        hir::Ast::Variable(variable) => assert_eq!(variable.definition_id, defined[0]),
        other => panic!("{:?}", other),
    }
}

/// `fact n = if n == 0 then 1 else n * fact (n - 1); fact 5`
fn factorial_program() -> (Builder, DefinitionInfoId, AstId) {
    let mut b = Builder::new();
    let n = b.define("n", Some(DefinitionKind::Parameter));
    let fact = b.define("fact", None);
    let n_pattern = b.variable("n", n);
    let n1 = b.variable("n", n);
    let zero = b.number(0);
    let condition = b.operation("EqInt", vec![n1, zero]);
    let one = b.number(1);
    let n2 = b.variable("n", n);
    let n3 = b.variable("n", n);
    let one_again = b.number(1);
    let less = b.operation("SubInt", vec![n3, one_again]);
    let inner = b.variable("fact", fact);
    let recursion = b.call(inner, vec![less]);
    let product = b.operation("MulInt", vec![n2, recursion]);
    let body = b.node(NodeKind::If(condition, one, Some(product)));
    let lambda = b.node(NodeKind::Lambda(vec![n_pattern], body, Vec::new()));
    let definition = b.top_level(fact, "fact", lambda);
    let outer = b.variable("fact", fact);
    let five = b.number(5);
    let call = b.call(outer, vec![five]);
    let root = b.node(NodeKind::Sequence(vec![definition, call]));
    (b, fact, root)
}

#[test]
fn recursive_definition_is_inferred_through_its_own_type_variable() {
    let (mut b, fact, root) = factorial_program();
    assert_eq!(infer_ast(&mut b.program, root, &mut b.cache), Ok(()));
    assert!(b.cache.diagnostics.is_empty(), "{:?}", b.cache.diagnostics);
    assert_eq!(b.type_of(root), i32_type());
    // Where it is called, the function takes an integer of the default kind to one.
    let call = match &b.program.nodes[root.0].kind {
        NodeKind::Sequence(statements) => statements[1],
        other => panic!("{:?}", other),
    };
    let function_node = match &b.program.nodes[call.0].kind {
        NodeKind::FunctionCall(function_node, _) => *function_node,
        other => panic!("{:?}", other),
    };
    match b.type_of(function_node) {
        Type::Function(f) => {
            assert_eq!(f.parameters, vec![i32_type()]);
            assert_eq!(*f.return_type, i32_type());
        },
        other => panic!("{:?}", other),
    }
    // The definition itself is good for any integer type.
    let info = &b.cache.definition_infos[fact.0];
    match &info.typ {
        Some(GeneralizedType::PolyType(variables, Type::Function(f))) => {
            assert_eq!(f.parameters.len(), 1);
            match resolved(&f.return_type, &b.cache) {
                Type::TypeVariable(result) => assert!(variables.contains(&result)),
                other => panic!("{:?}", other),
            }
        },
        other => panic!("{:?}", other),
    }
    assert!(info.required_traits.iter().all(|required| required.signature.trait_id.0 == 0));
    assert!(!info.required_traits.is_empty());
}

#[test]
fn recursive_definition_is_lowered_to_one_function() {
    let (mut b, _, root) = factorial_program();
    assert_eq!(infer_ast(&mut b.program, root, &mut b.cache), Ok(()));
    let lowered = monomorphise(&b.program, root, b.cache).expect("the program can be lowered");
    let text = format!("{:?}", lowered);
    assert_eq!(count(&text, "Lambda(Lambda {"), 1, "{}", text);
    assert_eq!(count(&text, "Binary(MulInt"), 1, "{}", text);
    assert_eq!(count(&text, "Binary(SubInt"), 1, "{}", text);
    assert_eq!(count(&text, "Binary(EqInt"), 1, "{}", text);
    assert_eq!(count(&text, "Literal(Integer(5, I32))"), 1, "{}", text);
    assert_eq!(count(&text, "Literal(Integer(0, I32))"), 1, "{}", text);
    let statements = match &lowered {
        hir::Ast::Sequence(statements) => statements,
        other => panic!("{:?}", other),
    };
    let id = match &statements[1] {
        hir::Ast::FunctionCall(call) => {
            assert_eq!(call.function_type.parameters, vec![lowered_i32()]);
            assert_eq!(*call.function_type.return_type, lowered_i32());
            match &*call.function {
                hir::Ast::Variable(variable) => variable.definition_id,
                other => panic!("{:?}", other),
            }
        },
        other => panic!("{:?}", other),
    };
    // The use inside is a reference to the same definition, without its body.
    let inside = format!("Variable(Variable {{ definition: None, definition_id: {:?} }})", id);
    assert_eq!(count(&text, &inside), 1, "{}", text);
}

/// ```text
/// trait Add a with (+): a a -> a
/// impl Add i32 with (+) = fn p q -> builtin "AddInt" p q
/// f = fn x -> x + 1
/// f 2
/// ```
/// With `suffixed`, the numbers are written `1_i32` and `2_i32`. The occurrence of `+`, the
/// occurrence of `f` in the call, the definition of `f`, and the root are returned with
/// the program.
fn overloaded_program(suffixed: bool) -> (Builder, VariableId, VariableId, DefinitionInfoId, AstId) {
    let mut b = Builder::new();
    let add = TraitInfoId(b.cache.trait_infos.len());
    let a = b.cache.next_type_variable_id(LetBindingLevel(3));
    b.cache.trait_infos.push(TraitInfo {
        name: String::from("Add"),
        typeargs: vec![a],
        fundeps: Vec::new(),
        definitions: Vec::new(),
        trait_node: None,
        location: Location::builtin(),
    });
    let declaration = b.node(NodeKind::TraitDefinition(Vec::new(), Some(LetBindingLevel(1))));
    b.cache.trait_infos[add.0].trait_node = Some(declaration);
    let member = b.define("+", Some(DefinitionKind::TraitDefinition(declaration)));
    b.cache.trait_infos[add.0].definitions.push(member);
    b.cache.definition_infos[member.0].trait_info = Some((add, vec![Type::TypeVariable(a)]));
    b.cache.definition_infos[member.0].typ = Some(GeneralizedType::PolyType(
        vec![a],
        function(vec![Type::TypeVariable(a), Type::TypeVariable(a)], Type::TypeVariable(a), false),
    ));
    // The impl
    let p = b.define("p", Some(DefinitionKind::Parameter));
    let q = b.define("q", Some(DefinitionKind::Parameter));
    let plus = b.define("+", None);
    b.cache.definition_infos[plus.0].trait_impl = Some(ImplInfoId(0));
    let p_pattern = b.variable("p", p);
    let q_pattern = b.variable("q", q);
    let p_use = b.variable("p", p);
    let q_use = b.variable("q", q);
    let sum = b.operation("AddInt", vec![p_use, q_use]);
    let lambda = b.node(NodeKind::Lambda(vec![p_pattern, q_pattern], sum, Vec::new()));
    let plus_definition = b.top_level(plus, "+", lambda);
    b.cache.impl_infos.push(ImplInfo {
        trait_id: add,
        typeargs: vec![i32_type()],
        definitions: vec![plus],
        given: Vec::new(),
        location: Location::builtin(),
    });
    let trait_impl = b.node(NodeKind::TraitImpl(
        Some(add),
        Some(ImplInfoId(0)),
        vec![i32_type()],
        vec![plus_definition],
    ));
    // f = fn x -> x + 1
    let x = b.define("x", Some(DefinitionKind::Parameter));
    let f = b.define("f", None);
    let x_pattern = b.variable("x", x);
    let x_use = b.variable("x", x);
    let one = if suffixed { b.integer(1) } else { b.number(1) };
    let plus_use = b.variable("+", member);
    let plus_occurrence = VariableId(b.cache.variable_infos.len() - 1);
    let body = b.call(plus_use, vec![x_use, one]);
    let lambda = b.node(NodeKind::Lambda(vec![x_pattern], body, Vec::new()));
    let f_definition = b.top_level(f, "f", lambda);
    let f_use = b.variable("f", f);
    let f_occurrence = VariableId(b.cache.variable_infos.len() - 1);
    let two = if suffixed { b.integer(2) } else { b.number(2) };
    let call = b.call(f_use, vec![two]);
    let root = b.node(NodeKind::Sequence(vec![declaration, trait_impl, f_definition, call]));
    (b, plus_occurrence, f_occurrence, f, root)
}

#[test]
fn overloaded_operator_at_a_known_type_is_resolved_where_it_stands() {
    let (mut b, plus_occurrence, f_occurrence, f, root) = overloaded_program(true);
    assert_eq!(infer_ast(&mut b.program, root, &mut b.cache), Ok(()));
    assert!(b.cache.diagnostics.is_empty(), "{:?}", b.cache.diagnostics);
    assert_eq!(b.type_of(root), i32_type());
    let chosen = &b.cache.variable_infos[plus_occurrence.0].required_impls;
    assert_eq!(chosen.len(), 1, "{:?}", chosen);
    assert_eq!(chosen[0].binding, ImplInfoId(0));
    assert_eq!(chosen[0].callsite, Callsite::Direct(plus_occurrence));
    assert!(b.cache.variable_infos[f_occurrence.0].required_impls.is_empty());
    assert!(b.cache.definition_infos[f.0].required_traits.is_empty());
}

#[test]
fn overloaded_operator_at_any_type_is_required_of_the_users_of_the_function() {
    let (mut b, plus_occurrence, f_occurrence, f, root) = overloaded_program(false);
    assert_eq!(infer_ast(&mut b.program, root, &mut b.cache), Ok(()));
    assert!(b.cache.diagnostics.is_empty(), "{:?}", b.cache.diagnostics);
    assert_eq!(b.type_of(root), i32_type());
    // f : forall a. a -> a given Add a, Int a
    let info = &b.cache.definition_infos[f.0];
    match &info.typ {
        Some(GeneralizedType::PolyType(variables, Type::Function(function))) => {
            assert_eq!(variables.len(), 1);
            assert_eq!(resolved(&function.parameters[0], &b.cache), Type::TypeVariable(variables[0]));
            assert_eq!(resolved(&function.return_type, &b.cache), Type::TypeVariable(variables[0]));
        },
        other => panic!("{:?}", other),
    }
    let required: Vec<(usize, Callsite)> =
        info.required_traits.iter().map(|required| (required.signature.trait_id.0, required.callsite)).collect();
    assert_eq!(required.len(), 2, "{:?}", info.required_traits);
    assert!(required.contains(&(1, Callsite::Direct(plus_occurrence))), "{:?}", info.required_traits);
    let add = info.required_traits.iter().find(|required| required.signature.trait_id.0 == 1).unwrap();
    // The impl is chosen at the call of `f`, for the obligation that `f` passes on.
    assert!(b.cache.variable_infos[plus_occurrence.0].required_impls.is_empty());
    let chosen = &b.cache.variable_infos[f_occurrence.0].required_impls;
    assert_eq!(chosen.len(), 1, "{:?}", chosen);
    assert_eq!(chosen[0].binding, ImplInfoId(0));
    assert_eq!(chosen[0].callsite, Callsite::Indirect(f_occurrence, add.signature.id));
    assert_eq!(chosen[0].args.iter().map(|arg| resolved(arg, &b.cache)).collect::<Vec<_>>(), vec![i32_type()]);
}

fn lowered_to_the_integer_addition(suffixed: bool) {
    let (mut b, _, _, _, root) = overloaded_program(suffixed);
    assert_eq!(infer_ast(&mut b.program, root, &mut b.cache), Ok(()));
    let lowered = monomorphise(&b.program, root, b.cache).expect("the program can be lowered");
    let text = format!("{:?}", lowered);
    assert_eq!(count(&text, "Binary(AddInt"), 1, "{}", text);
    assert_eq!(count(&text, "Lambda(Lambda {"), 2, "{}", text);
    assert_eq!(count(&text, "Literal(Integer(1, I32))"), 1, "{}", text);
    // The call of `+` is a call of the function of the impl.
    let statements = match &lowered {
        hir::Ast::Sequence(statements) => statements,
        other => panic!("{:?}", other),
    };
    let f = match statements.last() {
        Some(hir::Ast::FunctionCall(call)) => {
            assert_eq!(call.function_type.parameters, vec![lowered_i32()]);
            match &*call.function {
                hir::Ast::Variable(variable) => variable.definition.clone().expect("f is defined where it is used"),
                other => panic!("{:?}", other),
            }
        },
        other => panic!("{:?}", other),
    };
    let body = match &*f {
        hir::Ast::Definition(definition) => match &*definition.expr {
            hir::Ast::Lambda(lambda) => &lambda.body,
            other => panic!("{:?}", other),
        },
        other => panic!("{:?}", other),
    };
    match &**body {
        hir::Ast::FunctionCall(call) => {
            assert_eq!(call.function_type.parameters, vec![lowered_i32(), lowered_i32()]);
            match &*call.function {
                hir::Ast::Variable(variable) => match variable.definition.as_deref() {
                    Some(hir::Ast::Definition(plus)) => match &*plus.expr {
                        hir::Ast::Lambda(lambda) => {
                            assert!(
                                matches!(&*lambda.body, hir::Ast::Builtin(hir::Builtin::Binary(hir::BinaryOp::AddInt, _, _))),
                                "{}",
                                text
                            );
                        },
                        other => panic!("{:?}", other),
                    },
                    other => panic!("{:?}", other),
                },
                other => panic!("{:?}", other),
            }
        },
        other => panic!("{:?}", other),
    }
}

#[test]
fn overloaded_operator_is_lowered_to_the_integer_addition() {
    lowered_to_the_integer_addition(true);
}

#[test]
fn overloaded_operator_passed_on_is_lowered_to_the_integer_addition() {
    lowered_to_the_integer_addition(false);
}

#[test]
fn obligation_without_an_impl_is_reported() {
    let (mut b, _, _, _, root) = overloaded_program(true);
    // The impl is for another type.
    b.cache.impl_infos[0].typeargs = vec![Type::Primitive(PrimitiveType::CharType)];
    for node in b.program.nodes.iter_mut() {
        if let NodeKind::TraitImpl(_, _, types, _) = &mut node.kind {
            *types = vec![Type::Primitive(PrimitiveType::CharType)];
        }
    }
    assert_eq!(infer_ast(&mut b.program, root, &mut b.cache), Ok(()));
    let unresolved: Vec<_> = b
        .cache
        .diagnostics
        .iter()
        .filter(|message| matches!(message.error, UnificationError::UnresolvedTrait(1, _)))
        .collect();
    assert_eq!(unresolved.len(), 1, "{:?}", b.cache.diagnostics);
}

/// `adder y = fn x -> builtin "AddInt" x y; (adder 3) 4`
fn closure_program() -> (Builder, AstId, AstId) {
    let mut b = Builder::new();
    let y = b.define("y", Some(DefinitionKind::Parameter));
    let y_inside = b.define("y", Some(DefinitionKind::Parameter));
    let x = b.define("x", Some(DefinitionKind::Parameter));
    let adder = b.define("adder", None);
    let y_pattern = b.variable("y", y);
    let y_pattern = b.annotated(y_pattern, i32_type());
    let x_pattern = b.variable("x", x);
    let x_pattern = b.annotated(x_pattern, i32_type());
    let x_use = b.variable("x", x);
    let y_use = b.variable("y", y_inside);
    let sum = b.operation("AddInt", vec![x_use, y_use]);
    let sum = b.annotated(sum, i32_type());
    b.cache.variable_infos.push(VariableInfo {
        name: String::from("y"),
        location: Location::builtin(),
        required_impls: Vec::new(),
    });
    let capture = VariableId(b.cache.variable_infos.len() - 1);
    let inner = b.node(NodeKind::Lambda(
        vec![x_pattern],
        sum,
        vec![ClosureEntry { outer: y, variable: capture, inner: y_inside, bindings: Rc::new(HashMap::new()) }],
    ));
    let outer = b.node(NodeKind::Lambda(vec![y_pattern], inner, Vec::new()));
    let definition = b.top_level(adder, "adder", outer);
    let adder_use = b.variable("adder", adder);
    let three = b.integer(3);
    let partial = b.call(adder_use, vec![three]);
    let four = b.integer(4);
    let call = b.call(partial, vec![four]);
    let root = b.node(NodeKind::Sequence(vec![definition, call]));
    (b, inner, root)
}

#[test]
fn closure_has_the_type_of_what_it_captures_for_its_environment() {
    let (mut b, inner, root) = closure_program();
    assert_eq!(infer_ast(&mut b.program, root, &mut b.cache), Ok(()));
    assert!(b.cache.diagnostics.is_empty(), "{:?}", b.cache.diagnostics);
    match b.type_of(inner) {
        Type::Function(f) => {
            // The environment is the tuple of the one captured integer.
            assert_eq!(
                *f.environment,
                Type::TypeApplication(Box::new(Type::UserDefined(TypeInfoId(0))), vec![i32_type(), unit_type()])
            );
            assert_eq!(f.parameters, vec![i32_type()]);
            assert_eq!(*f.return_type, i32_type());
        },
        other => panic!("{:?}", other),
    }
    assert_eq!(b.type_of(root), i32_type());
}

#[test]
fn closure_is_lowered_to_function_and_environment() {
    let (mut b, _, root) = closure_program();
    assert_eq!(infer_ast(&mut b.program, root, &mut b.cache), Ok(()));
    let lowered = monomorphise(&b.program, root, b.cache).expect("the program can be lowered");
    let text = format!("{:?}", lowered);
    assert_eq!(count(&text, "Lambda(Lambda {"), 2, "{}", text);
    let statements = match &lowered {
        hir::Ast::Sequence(statements) => statements,
        other => panic!("{:?}", other),
    };
    // The closure is kept in a variable of its own, and called with its environment as
    // the last argument.
    let parts = match &statements[1] {
        hir::Ast::Sequence(parts) => parts,
        other => panic!("{:?}", other),
    };
    assert_eq!(parts.len(), 2, "{}", text);
    let environment_type = hir_types::Type::Tuple(vec![lowered_i32()]);
    let function_type = hir_types::FunctionType {
        parameters: vec![lowered_i32(), environment_type.clone()],
        return_type: Box::new(lowered_i32()),
        is_varargs: false,
    };
    let (closure, adder) = match &parts[0] {
        hir::Ast::Definition(definition) => match &*definition.expr {
            hir::Ast::FunctionCall(call) => {
                assert!(matches!(&call.args[..], [hir::Ast::Literal(hir::Literal::Integer(3, _))]), "{}", text);
                assert_eq!(
                    *call.function_type.return_type,
                    hir_types::Type::Tuple(vec![hir_types::Type::Function(function_type.clone()), environment_type])
                );
                let adder = match &*call.function {
                    hir::Ast::Variable(variable) => variable.definition.clone().expect("adder is defined here"),
                    other => panic!("{:?}", other),
                };
                (definition.variable, adder)
            },
            other => panic!("{:?}", other),
        },
        other => panic!("{:?}", other),
    };
    match &parts[1] {
        hir::Ast::FunctionCall(call) => {
            assert_eq!(call.args.len(), 2, "{}", text);
            assert!(matches!(&call.args[0], hir::Ast::Literal(hir::Literal::Integer(4, _))), "{}", text);
            match (&*call.function, &call.args[1]) {
                (hir::Ast::MemberAccess(function, 0), hir::Ast::MemberAccess(environment, 1)) => {
                    match (&**function, &**environment) {
                        (hir::Ast::Variable(f), hir::Ast::Variable(e)) => {
                            assert_eq!(f.definition_id, closure);
                            assert_eq!(e.definition_id, closure);
                        },
                        other => panic!("{:?}", other),
                    }
                },
                other => panic!("{:?}", other),
            }
            assert_eq!(call.function_type.parameters, function_type.parameters);
        },
        other => panic!("{:?}", other),
    }
    // The value of the closure is the pair of the function and the tuple of what it
    // captures.
    let outer = match &*adder {
        hir::Ast::Definition(definition) => match &*definition.expr {
            hir::Ast::Lambda(outer) => outer,
            other => panic!("{:?}", other),
        },
        other => panic!("{:?}", other),
    };
    assert_eq!(outer.args.len(), 1);
    let y = outer.args[0].0.definition_id;
    let fields = match &*outer.body {
        hir::Ast::Tuple(fields) => fields,
        other => panic!("{:?}", other),
    };
    assert_eq!(fields.len(), 2, "{}", text);
    match &fields[1] {
        hir::Ast::Tuple(captured) => {
            assert_eq!(captured.len(), 1);
            assert!(matches!(&captured[0], hir::Ast::Variable(variable) if variable.definition_id == y), "{}", text);
        },
        other => panic!("{:?}", other),
    }
    // The function takes the environment as its last parameter, and takes what it
    // captured out of it before its body.
    let inner = match &fields[0] {
        hir::Ast::Lambda(inner) => inner,
        other => panic!("{:?}", other),
    };
    assert_eq!(inner.args.len(), 2, "{}", text);
    assert_eq!(inner.typ.parameters, function_type.parameters);
    let x = inner.args[0].0.definition_id;
    let environment = inner.args[1].0.definition_id;
    let body = match &*inner.body {
        hir::Ast::Sequence(body) => body,
        other => panic!("{:?}", other),
    };
    assert_eq!(body.len(), 2, "{}", text);
    let captured = match &body[0] {
        hir::Ast::Definition(definition) => {
            match &*definition.expr {
                hir::Ast::MemberAccess(from, 0) => {
                    assert!(matches!(&**from, hir::Ast::Variable(v) if v.definition_id == environment), "{}", text)
                },
                other => panic!("{:?}", other),
            }
            definition.variable
        },
        other => panic!("{:?}", other),
    };
    match &body[1] {
        hir::Ast::Builtin(hir::Builtin::Binary(hir::BinaryOp::AddInt, lhs, rhs)) => {
            assert!(matches!(&**lhs, hir::Ast::Variable(v) if v.definition_id == x), "{}", text);
            assert!(matches!(&**rhs, hir::Ast::Variable(v) if v.definition_id == captured), "{}", text);
        },
        other => panic!("{:?}", other),
    }
}

/// `f = fn a b -> fn x -> (a; b; x)`: a closure that captures two variables.
#[test]
fn closure_of_two_variables_has_a_tuple_of_two_for_its_environment() {
    let mut b = Builder::new();
    let a = b.define("a", Some(DefinitionKind::Parameter));
    let bb = b.define("b", Some(DefinitionKind::Parameter));
    let a_inside = b.define("a", Some(DefinitionKind::Parameter));
    let b_inside = b.define("b", Some(DefinitionKind::Parameter));
    let x = b.define("x", Some(DefinitionKind::Parameter));
    let f = b.define("f", None);
    let a_pattern = b.variable("a", a);
    let a_pattern = b.annotated(a_pattern, i32_type());
    let b_pattern = b.variable("b", bb);
    let b_pattern = b.annotated(b_pattern, Type::Primitive(PrimitiveType::BooleanType));
    let x_pattern = b.variable("x", x);
    let x_pattern = b.annotated(x_pattern, i32_type());
    let a_use = b.variable("a", a_inside);
    let b_use = b.variable("b", b_inside);
    let x_use = b.variable("x", x);
    let body = b.node(NodeKind::Sequence(vec![a_use, b_use, x_use]));
    let mut captures = Vec::new();
    for (outer, inner) in [(a, a_inside), (bb, b_inside)] {
        b.cache.variable_infos.push(VariableInfo {
            name: String::from("captured"),
            location: Location::builtin(),
            required_impls: Vec::new(),
        });
        let variable = VariableId(b.cache.variable_infos.len() - 1);
        captures.push(ClosureEntry { outer, variable, inner, bindings: Rc::new(HashMap::new()) });
    }
    let inner = b.node(NodeKind::Lambda(vec![x_pattern], body, captures));
    let outer = b.node(NodeKind::Lambda(vec![a_pattern, b_pattern], inner, Vec::new()));
    let definition = b.top_level(f, "f", outer);
    let f_use = b.variable("f", f);
    let one = b.integer(1);
    let yes = b.node(NodeKind::Literal(LiteralKind::Bool(true)));
    let call = b.call(f_use, vec![one, yes]);
    let root = b.node(NodeKind::Sequence(vec![definition, call]));
    assert_eq!(infer_ast(&mut b.program, root, &mut b.cache), Ok(()));
    assert!(b.cache.diagnostics.is_empty(), "{:?}", b.cache.diagnostics);
    let pair = |first: Type, second: Type| {
        Type::TypeApplication(Box::new(Type::UserDefined(TypeInfoId(0))), vec![first, second])
    };
    match b.type_of(inner) {
        Type::Function(function) => assert_eq!(
            *function.environment,
            pair(i32_type(), pair(Type::Primitive(PrimitiveType::BooleanType), unit_type()))
        ),
        other => panic!("{:?}", other),
    }
    let lowered = monomorphise(&b.program, root, b.cache).expect("the program can be lowered");
    let text = format!("{:?}", lowered);
    let environment =
        "Tuple([Primitive(Integer(I32)), Primitive(Boolean)])";
    assert!(text.contains(&format!("return_type: Primitive(Integer(I32)), is_varargs: false }}), {}])", environment)), "{}", text);
    // Two fields are taken out of the environment, and the environment holds two values.
    assert_eq!(count(&text, "expr: MemberAccess(Variable("), 2, "{}", text);
    assert_eq!(count(&text, "Tuple([Variable(Variable {"), 1, "{}", text);
}

#[test]
fn condition_that_is_no_boolean_is_reported() {
    let mut b = Builder::new();
    let condition = b.integer(1);
    let yes = b.integer(2);
    let no = b.integer(3);
    let root = b.node(NodeKind::If(condition, yes, Some(no)));
    assert_eq!(infer_ast(&mut b.program, root, &mut b.cache), Ok(()));
    assert_eq!(b.cache.diagnostics.len(), 1, "{:?}", b.cache.diagnostics);
    match &b.cache.diagnostics[0].error {
        UnificationError::TypeMismatch(found, expected) => {
            assert_eq!(*found, i32_type());
            assert_eq!(*expected, Type::Primitive(PrimitiveType::BooleanType));
        },
        other => panic!("{:?}", other),
    }
    assert_eq!(b.cache.diagnostics[0].location, at_line(1));
    assert_eq!(b.type_of(root), i32_type());
}

#[test]
fn conditional_without_else_is_unit() {
    let mut b = Builder::new();
    let condition = b.node(NodeKind::Literal(LiteralKind::Bool(true)));
    let yes = b.integer(2);
    let root = b.node(NodeKind::If(condition, yes, None));
    assert_eq!(infer_ast(&mut b.program, root, &mut b.cache), Ok(()));
    assert!(b.cache.diagnostics.is_empty(), "{:?}", b.cache.diagnostics);
    assert_eq!(b.type_of(root), unit_type());
}

#[test]
fn literal_pattern_in_a_definition_is_not_irrefutable() {
    let mut b = Builder::new();
    let pattern = b.integer(3);
    let rhs = b.integer(3);
    let root = b.node(NodeKind::Definition(pattern, rhs, false, Some(LetBindingLevel(2))));
    assert_eq!(infer_ast(&mut b.program, root, &mut b.cache), Ok(()));
    assert_eq!(b.cache.diagnostics.len(), 1, "{:?}", b.cache.diagnostics);
    assert!(matches!(b.cache.diagnostics[0].error, UnificationError::NotIrrefutable));
}

#[test]
fn call_with_too_many_arguments_is_reported() {
    let (mut b, id, _, _, _) = identity_program();
    let id_use = b.variable("id", id);
    let one = b.integer(1);
    let two = b.integer(2);
    let call = b.call(id_use, vec![one, two]);
    let definition = AstId(4);
    assert!(matches!(b.program.nodes[definition.0].kind, NodeKind::Definition(..)));
    let root = b.node(NodeKind::Sequence(vec![definition, call]));
    assert_eq!(infer_ast(&mut b.program, root, &mut b.cache), Ok(()));
    assert_eq!(b.cache.diagnostics.len(), 1, "{:?}", b.cache.diagnostics);
    assert!(
        matches!(b.cache.diagnostics[0].error, UnificationError::ArgumentCountMismatch(..)),
        "{:?}",
        b.cache.diagnostics
    );
}

#[test]
fn match_with_an_ill_typed_pattern_gets_no_decision_tree() {
    let mut b = Builder::new();
    let scrutinee = b.integer(1);
    let pattern = b.node(NodeKind::Literal(LiteralKind::Bool(true)));
    let body = b.integer(2);
    let root = b.node(NodeKind::Match(scrutinee, vec![(pattern, body)], false));
    assert_eq!(infer_ast(&mut b.program, root, &mut b.cache), Ok(()));
    assert_eq!(b.cache.diagnostics.len(), 1, "{:?}", b.cache.diagnostics);
    assert!(matches!(b.program.nodes[root.0].kind, NodeKind::Match(_, _, false)));
}

#[test]
fn match_with_well_typed_patterns_is_ready_for_its_decision_tree() {
    let mut b = Builder::new();
    let scrutinee = b.integer(1);
    let first = b.integer(1);
    let yes = b.node(NodeKind::Literal(LiteralKind::Bool(true)));
    let second = b.integer(2);
    let no = b.node(NodeKind::Literal(LiteralKind::Bool(false)));
    let root = b.node(NodeKind::Match(scrutinee, vec![(first, yes), (second, no)], false));
    assert_eq!(infer_ast(&mut b.program, root, &mut b.cache), Ok(()));
    assert!(b.cache.diagnostics.is_empty(), "{:?}", b.cache.diagnostics);
    assert!(matches!(b.program.nodes[root.0].kind, NodeKind::Match(_, _, true)));
    assert_eq!(b.type_of(root), Type::Primitive(PrimitiveType::BooleanType));
    // There is no lowering of a match without its decision tree.
    assert_eq!(monomorphise(&b.program, root, b.cache).err(), Some(Fault::NoDecisionTree));
}

#[test]
fn node_outside_the_program_is_malformed() {
    let mut b = Builder::new();
    assert_eq!(infer_ast(&mut b.program, AstId(7), &mut b.cache), Err(Fault::Malformed));
}

#[test]
fn variable_without_a_definition_is_malformed() {
    let mut b = Builder::new();
    let root = b.node(NodeKind::Variable(Variable {
        name: String::from("x"),
        definition: None,
        id: None,
        impl_scope: None,
        instantiation_mapping: Rc::new(HashMap::new()),
    }));
    assert_eq!(infer_ast(&mut b.program, root, &mut b.cache), Err(Fault::Malformed));
}

/// `type Option a = None | Some a; Some 2; None : Option i32`
#[test]
fn variants_of_a_sum_type_are_tagged_and_share_a_layout() {
    let mut b = Builder::new();
    let a = b.cache.next_type_variable_id(LetBindingLevel(3));
    let option = TypeInfoId(b.cache.type_infos.len());
    let none = b.define("None", Some(DefinitionKind::TypeConstructor(Some(0))));
    let some = b.define("Some", Some(DefinitionKind::TypeConstructor(Some(1))));
    b.cache.type_infos.push(TypeInfo {
        args: vec![a],
        name: String::from("Option"),
        body: TypeInfoBody::Union(vec![
            ante::cache::TypeConstructor {
                name: String::from("None"),
                args: vec![],
                id: none,
                location: Location::builtin(),
            },
            ante::cache::TypeConstructor {
                name: String::from("Some"),
                args: vec![Type::TypeVariable(a)],
                id: some,
                location: Location::builtin(),
            },
        ]),
        location: Location::builtin(),
    });
    let option_of = |argument: Type| Type::TypeApplication(Box::new(Type::UserDefined(option)), vec![argument]);
    b.cache.definition_infos[none.0].typ =
        Some(GeneralizedType::PolyType(vec![a], option_of(Type::TypeVariable(a))));
    b.cache.definition_infos[some.0].typ = Some(GeneralizedType::PolyType(
        vec![a],
        function(vec![Type::TypeVariable(a)], option_of(Type::TypeVariable(a)), false),
    ));
    let some_use = b.variable("Some", some);
    let two = b.number(2);
    let some_two = b.call(some_use, vec![two]);
    let none_use = b.variable("None", none);
    let none_i32 = b.annotated(none_use, option_of(i32_type()));
    let root = b.node(NodeKind::Sequence(vec![some_two, none_i32]));
    assert_eq!(infer_ast(&mut b.program, root, &mut b.cache), Ok(()));
    assert!(b.cache.diagnostics.is_empty(), "{:?}", b.cache.diagnostics);
    assert_eq!(b.type_of(some_two), option_of(i32_type()));
    let lowered = monomorphise(&b.program, root, b.cache).expect("the program can be lowered");
    let text = format!("{:?}", lowered);
    let layout = "Tuple([Primitive(Integer(U8)), Primitive(Integer(I32))])";
    let tagged = format!(
        "ReinterpretCast(Tuple([Literal(Integer(1, U8)), Variable(Variable {{ definition: None, definition_id: DefinitionId(0) }})]), {})",
        layout
    );
    let empty = format!("ReinterpretCast(Tuple([Literal(Integer(0, U8)), Literal(Integer(0, I32))]), {})", layout);
    assert_eq!(count(&text, &tagged), 1, "{}", text);
    assert_eq!(count(&text, &empty), 1, "{}", text);
    assert_eq!(count(&text, "Literal(Integer(2, I32))"), 1, "{}", text);
}

#[test]
fn integer_without_a_suffix_is_a_32_bit_signed_integer_where_nothing_says_more() {
    let mut b = Builder::new();
    let x = b.define("x", None);
    let one = b.number(1);
    let definition = b.top_level(x, "x", one);
    let x_use = b.variable("x", x);
    let root = b.node(NodeKind::Sequence(vec![definition, x_use]));
    assert_eq!(infer_ast(&mut b.program, root, &mut b.cache), Ok(()));
    assert!(b.cache.diagnostics.is_empty(), "{:?}", b.cache.diagnostics);
    assert_eq!(b.type_of(one), i32_type());
    assert_eq!(b.type_of(root), i32_type());
    assert!(matches!(
        b.program.nodes[one.0].kind,
        NodeKind::Literal(LiteralKind::Integer(1, IntegerKind::Inferred(_)))
    ));
}

#[test]
fn integer_without_a_suffix_is_the_integer_type_it_is_used_as() {
    let mut b = Builder::new();
    let one = b.number(1);
    let root = b.annotated(one, Type::Primitive(PrimitiveType::IntegerType(IntegerKind::U8)));
    assert_eq!(infer_ast(&mut b.program, root, &mut b.cache), Ok(()));
    assert!(b.cache.diagnostics.is_empty(), "{:?}", b.cache.diagnostics);
    assert_eq!(b.type_of(one), Type::Primitive(PrimitiveType::IntegerType(IntegerKind::U8)));
    let lowered = monomorphise(&b.program, one, b.cache).expect("the literal can be lowered");
    assert!(matches!(lowered, hir::Ast::Literal(hir::Literal::Integer(1, hir_types::IntegerKind::U8))));
}

#[test]
fn integer_without_a_suffix_is_no_boolean() {
    let mut b = Builder::new();
    let one = b.number(1);
    let yes = b.integer(2);
    let root = b.node(NodeKind::If(one, yes, None));
    assert_eq!(infer_ast(&mut b.program, root, &mut b.cache), Ok(()));
    assert_eq!(b.cache.diagnostics.len(), 1, "{:?}", b.cache.diagnostics);
    assert!(matches!(b.cache.diagnostics[0].error, UnificationError::UnresolvedTrait(0, _)));
}

#[test]
fn what_is_no_pattern_cannot_be_bound() {
    let mut b = Builder::new();
    let pattern = b.node(NodeKind::Import);
    let rhs = b.integer(3);
    let root = b.node(NodeKind::Definition(pattern, rhs, false, Some(LetBindingLevel(2))));
    assert_eq!(infer_ast(&mut b.program, root, &mut b.cache), Ok(()));
    assert_eq!(b.cache.diagnostics.len(), 1, "{:?}", b.cache.diagnostics);
    assert!(matches!(b.cache.diagnostics[0].error, UnificationError::InvalidPattern));
    assert_eq!(b.cache.diagnostics[0].location, b.program.nodes[pattern.0].location);
}

#[test]
fn obligation_that_two_impls_meet_is_reported() {
    let (mut b, _, _, _, root) = overloaded_program(true);
    b.cache.impl_infos.push(ImplInfo {
        trait_id: TraitInfoId(1),
        typeargs: vec![i32_type()],
        definitions: Vec::new(),
        given: Vec::new(),
        location: Location::builtin(),
    });
    assert_eq!(infer_ast(&mut b.program, root, &mut b.cache), Ok(()));
    let ambiguous: Vec<_> = b
        .cache
        .diagnostics
        .iter()
        .filter(|message| matches!(message.error, UnificationError::AmbiguousImpl(1, _)))
        .collect();
    assert_eq!(ambiguous.len(), 1, "{:?}", b.cache.diagnostics);
    assert_eq!(b.cache.diagnostics.len(), 1, "{:?}", b.cache.diagnostics);
}

/// `impl Add i32 with <pattern> = <rhs>`, where `Add` is trait 1.
fn impl_with(b: &mut Builder, pattern: AstId, rhs: AstId) -> AstId {
    let a = b.cache.next_type_variable_id(LetBindingLevel(3));
    b.cache.trait_infos.push(TraitInfo {
        name: String::from("Add"),
        typeargs: vec![a],
        fundeps: Vec::new(),
        definitions: Vec::new(),
        trait_node: None,
        location: Location::builtin(),
    });
    let member = b.define("+", Some(DefinitionKind::TraitDefinition(AstId(0))));
    b.cache.trait_infos[1].definitions.push(member);
    b.cache.definition_infos[member.0].trait_info = Some((TraitInfoId(1), vec![Type::TypeVariable(a)]));
    b.cache.definition_infos[member.0].typ = Some(GeneralizedType::PolyType(
        vec![a],
        function(vec![Type::TypeVariable(a), Type::TypeVariable(a)], Type::TypeVariable(a), false),
    ));
    let definition = b.node(NodeKind::Definition(pattern, rhs, false, Some(LetBindingLevel(2))));
    b.cache.impl_infos.push(ImplInfo {
        trait_id: TraitInfoId(1),
        typeargs: vec![i32_type()],
        definitions: Vec::new(),
        given: Vec::new(),
        location: Location::builtin(),
    });
    b.node(NodeKind::TraitImpl(Some(TraitInfoId(1)), Some(ImplInfoId(0)), vec![i32_type()], vec![definition]))
}

#[test]
fn what_is_no_pattern_cannot_be_defined_in_an_impl() {
    let mut b = Builder::new();
    let pattern = b.node(NodeKind::Import);
    let rhs = b.node(NodeKind::Literal(LiteralKind::Unit));
    let root = impl_with(&mut b, pattern, rhs);
    assert_eq!(infer_ast(&mut b.program, root, &mut b.cache), Ok(()));
    let invalid = b
        .cache
        .diagnostics
        .iter()
        .filter(|message| matches!(message.error, UnificationError::InvalidImplPattern))
        .count();
    // Once where the pattern is bound, and once where its traits are checked.
    assert_eq!(invalid, 2, "{:?}", b.cache.diagnostics);
}

#[test]
fn definition_of_an_impl_that_is_no_function_may_need_no_trait() {
    let mut b = Builder::new();
    let plus = b.define("+", None);
    let pattern = b.variable("+", plus);
    let rhs = b.number(1);
    let root = impl_with(&mut b, pattern, rhs);
    if let NodeKind::TraitImpl(_, _, _, definitions) = &b.program.nodes[root.0].kind {
        b.cache.definition_infos[plus.0].definition = Some(DefinitionKind::Definition(definitions[0]));
    }
    assert_eq!(infer_ast(&mut b.program, root, &mut b.cache), Ok(()));
    let outside = b
        .cache
        .diagnostics
        .iter()
        .filter(|message| matches!(message.error, UnificationError::TraitOutsideFunction(0, _)))
        .count();
    assert_eq!(outside, 1, "{:?}", b.cache.diagnostics);
    assert_eq!(b.cache.diagnostics.len(), 1, "{:?}", b.cache.diagnostics);
}

#[test]
fn trait_that_a_definition_of_an_impl_uses_has_to_be_given() {
    let mut b = Builder::new();
    let plus = b.define("+", None);
    let pattern = b.variable("+", plus);
    let rhs = b.integer(1);
    impl_with(&mut b, pattern, rhs);
    // The definition uses `Int i32` under the id 7.
    let used = RequiredTrait {
        signature: ConstraintSignature { trait_id: TraitInfoId(0), args: vec![i32_type()], id: TraitConstraintId(7) },
        callsite: Callsite::Direct(VariableId(0)),
    };
    b.cache.definition_infos[plus.0].required_traits.push(used);
    assert_eq!(
        check_impl_propagated_traits(&mut b.program, pattern, TraitInfoId(1), &Vec::new(), &mut b.cache, 500),
        Ok(())
    );
    assert_eq!(b.cache.diagnostics.len(), 1, "{:?}", b.cache.diagnostics);
    assert!(matches!(b.cache.diagnostics[0].error, UnificationError::TraitNotGiven(0, _)));
    assert_eq!(b.cache.definition_infos[plus.0].required_traits[0].signature.id, TraitConstraintId(7));
    // Where the impl gives the trait, what is used gets the id of what is given.
    let given = vec![ConstraintSignature { trait_id: TraitInfoId(0), args: vec![i32_type()], id: TraitConstraintId(3) }];
    assert_eq!(
        check_impl_propagated_traits(&mut b.program, pattern, TraitInfoId(1), &given, &mut b.cache, 500),
        Ok(())
    );
    assert_eq!(b.cache.diagnostics.len(), 1, "{:?}", b.cache.diagnostics);
    assert_eq!(b.cache.definition_infos[plus.0].required_traits[0].signature.id, TraitConstraintId(3));
}

#[test]
fn definition_is_lowered_once_for_each_type_it_is_used_at() {
    let (mut b, id, _, _, root) = identity_program();
    // A third use, at the type of the first.
    let again = b.variable("id", id);
    let seven = b.number(7);
    let third_call = b.call(again, vec![seven]);
    let statements = match &b.program.nodes[root.0].kind {
        NodeKind::Sequence(statements) => {
            let mut statements = statements.clone();
            statements.push(third_call);
            statements
        },
        other => panic!("{:?}", other),
    };
    let root = b.node(NodeKind::Sequence(statements));
    assert_eq!(infer_ast(&mut b.program, root, &mut b.cache), Ok(()));
    let mut context = Context::new(b.cache);
    let lowered = context.monomorphise(&b.program, root, 500).expect("the program can be lowered");
    // The table holds the definition under two types; a later entry for a type takes the
    // place of an earlier one.
    let mut entries: Vec<&(DefinitionInfoId, Type, Definition)> = Vec::new();
    for entry in context.definitions.iter().rev().filter(|(definition, _, _)| *definition == id) {
        if entries.iter().all(|known| known.1 != entry.1) {
            entries.push(entry);
        }
    }
    assert_eq!(entries.len(), 2, "{:?}", context.definitions);
    let mut ids = Vec::new();
    for (_, typ, lowered) in entries {
        match (typ, lowered) {
            (Type::Function(function), Definition::Normal(variable)) => {
                assert_eq!(function.parameters.len(), 1);
                assert!(matches!(
                    variable.definition.as_deref(),
                    Some(hir::Ast::Definition(definition)) if matches!(&*definition.expr, hir::Ast::Lambda(_))
                ));
                ids.push((function.parameters[0].clone(), variable.definition_id));
            },
            other => panic!("{:?}", other),
        }
    }
    assert_ne!(ids[0].0, ids[1].0);
    assert_ne!(ids[0].1, ids[1].1);
    assert!(ids.iter().any(|(parameter, _)| *parameter == i32_type()));
    assert!(ids.iter().any(|(parameter, _)| *parameter == Type::Primitive(PrimitiveType::BooleanType)));
    // The first and the third call are calls of the same function.
    let calls = match &lowered {
        hir::Ast::Sequence(statements) => statements,
        other => panic!("{:?}", other),
    };
    let called: Vec<_> = calls[1..]
        .iter()
        .map(|call| match call {
            hir::Ast::FunctionCall(call) => match &*call.function {
                hir::Ast::Variable(variable) => variable.definition_id,
                other => panic!("{:?}", other),
            },
            other => panic!("{:?}", other),
        })
        .collect();
    assert_eq!(called[0], called[2]);
    assert_ne!(called[0], called[1]);
}

/// `x = 1; x := 2`, with `x` mutable or not.
fn assignment_program(mutable: bool) -> (Builder, AstId, AstId) {
    let mut b = Builder::new();
    let x = b.define("x", None);
    b.cache.definition_infos[x.0].mutable = mutable;
    let pattern = b.variable("x", x);
    let one = b.integer(1);
    let definition = b.node(NodeKind::Definition(pattern, one, mutable, Some(LetBindingLevel(2))));
    b.cache.definition_infos[x.0].definition = Some(DefinitionKind::Definition(definition));
    let x_use = b.variable("x", x);
    let two = b.integer(2);
    let assignment = b.node(NodeKind::Assignment(x_use, two));
    let root = b.node(NodeKind::Sequence(vec![definition, assignment]));
    (b, assignment, root)
}

#[test]
fn assignment_to_what_is_not_mutable_is_reported() {
    let (mut b, assignment, root) = assignment_program(false);
    assert_eq!(infer_ast(&mut b.program, root, &mut b.cache), Ok(()));
    assert_eq!(b.cache.diagnostics.len(), 1, "{:?}", b.cache.diagnostics);
    assert!(matches!(b.cache.diagnostics[0].error, UnificationError::NotMutable));
    assert_eq!(b.cache.diagnostics[0].location, b.program.nodes[assignment.0].location);
    assert_eq!(b.type_of(assignment), unit_type());
}

#[test]
fn assignment_to_a_mutable_variable_is_accepted() {
    let (mut b, assignment, root) = assignment_program(true);
    assert_eq!(infer_ast(&mut b.program, root, &mut b.cache), Ok(()));
    assert!(b.cache.diagnostics.is_empty(), "{:?}", b.cache.diagnostics);
    assert_eq!(b.type_of(assignment), unit_type());
}

#[test]
fn assignment_to_a_literal_or_to_a_field_of_what_is_not_mutable_is_reported() {
    let mut b = Builder::new();
    let one = b.integer(1);
    let two = b.integer(2);
    let root = b.node(NodeKind::Assignment(one, two));
    assert_eq!(infer_ast(&mut b.program, root, &mut b.cache), Ok(()));
    assert!(matches!(b.cache.diagnostics[..], [ante::error::ErrorMessage { error: UnificationError::NotMutable, .. }]));
    // What is reached through a pointer can be assigned to, and so can what is annotated
    // as mutable.
    let mut b = Builder::new();
    let pointer = b.integer(0);
    let place = b.operation("Deref", vec![pointer]);
    let three = b.integer(3);
    let through = b.node(NodeKind::Assignment(place, three));
    let four = b.integer(4);
    let marked = b.node(NodeKind::TypeAnnotation(four, true));
    b.program.nodes[marked.0].typ = Some(i32_type());
    let five = b.integer(5);
    let annotated = b.node(NodeKind::Assignment(marked, five));
    let root = b.node(NodeKind::Sequence(vec![through, annotated]));
    assert_eq!(infer_ast(&mut b.program, root, &mut b.cache), Ok(()));
    assert!(b.cache.diagnostics.is_empty(), "{:?}", b.cache.diagnostics);
}
