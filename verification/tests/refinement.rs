use ante::cache::{
    DefinitionInfo, DefinitionKind, Field, ModuleCache, TypeBinding, TypeConstructor, TypeInfo, TypeInfoBody,
};
use ante::error::{Fault, Location};
use ante::ast::{LiteralKind, Node, NodeKind, Program, Variable};
use ante::refine::{RefinementContext, Sort};
use ante::refine_definitions::{operator_of, operator_parameters, Step};
use ante::refine_terms::{Callee, Operator, RefinementValue, Refinements, SolverTerm, TermId};
use std::collections::HashMap;
use std::rc::Rc;
use ante::types::{
    AstId, DefinitionInfoId, FunctionType, IntegerKind, LetBindingLevel, PrimitiveType, Type, TypeInfoId,
};

fn i32_type() -> Type {
    Type::Primitive(PrimitiveType::IntegerType(IntegerKind::I32))
}

fn bool_type() -> Type {
    Type::Primitive(PrimitiveType::BooleanType)
}

fn function(parameters: Vec<Type>, return_type: Type) -> Type {
    Type::Function(FunctionType {
        parameters,
        return_type: Box::new(return_type),
        environment: Box::new(Type::Primitive(PrimitiveType::UnitType)),
        is_varargs: false,
    })
}

fn name_of(sort: &Sort) -> String {
    match sort {
        Sort::Int => String::from("Int"),
        Sort::Bool => String::from("Bool"),
        Sort::Real => String::from("Real"),
        Sort::Text => String::from("String"),
        Sort::Uninterpreted(name) => format!("sort {}", name),
        Sort::Datatype(name) => format!("datatype {}", name),
    }
}

/// A cache with the type of pairs and the type of strings, with `Option a = None | Some a`
/// as type 2 and `Point = { x: i32, y: float }` as type 3, where `a` is type variable 0,
/// and with a second type variable that is bound to bool.
fn cache_with_types() -> ModuleCache {
    let mut cache = ModuleCache::new();
    cache.next_type_variable_id(LetBindingLevel(1));
    cache.next_type_variable_id(LetBindingLevel(1));
    cache.type_bindings[1] = TypeBinding::Bound(bool_type());
    for name in [",", "string"] {
        cache.type_infos.push(TypeInfo {
            args: vec![],
            name: String::from(name),
            body: TypeInfoBody::Unknown,
            location: Location::builtin(),
        });
    }
    cache.type_infos.push(TypeInfo {
        args: vec![0],
        name: String::from("Option"),
        body: TypeInfoBody::Union(vec![
            TypeConstructor {
                name: String::from("None"),
                args: vec![],
                id: DefinitionInfoId(1),
                location: Location::builtin(),
            },
            TypeConstructor {
                name: String::from("Some"),
                args: vec![Type::TypeVariable(0)],
                id: DefinitionInfoId(2),
                location: Location::builtin(),
            },
        ]),
        location: Location::builtin(),
    });
    cache.type_infos.push(TypeInfo {
        args: vec![],
        name: String::from("Point"),
        body: TypeInfoBody::Struct(vec![
            Field { name: String::from("x"), field_type: i32_type(), location: Location::builtin() },
            Field {
                name: String::from("y"),
                field_type: Type::Primitive(PrimitiveType::FloatType),
                location: Location::builtin(),
            },
        ]),
        location: Location::builtin(),
    });
    cache.type_infos.push(TypeInfo {
        args: vec![],
        name: String::from("Flag"),
        body: TypeInfoBody::Alias(Type::TypeVariable(1)),
        location: Location::builtin(),
    });
    cache.type_infos.push(TypeInfo {
        args: vec![],
        name: String::from("Opaque"),
        body: TypeInfoBody::Unknown,
        location: Location::builtin(),
    });
    cache
}

fn sort_of(context: &mut RefinementContext, typ: &Type, cache: &ModuleCache) -> Result<String, Fault> {
    context.type_to_sort(typ, cache, 500).map(|sort| name_of(&sort))
}

#[test]
fn primitives_have_the_sorts_of_the_solver() {
    let cache = cache_with_types();
    let mut context = RefinementContext::new();
    assert_eq!(sort_of(&mut context, &i32_type(), &cache), Ok(String::from("Int")));
    assert_eq!(sort_of(&mut context, &Type::Primitive(PrimitiveType::CharType), &cache), Ok(String::from("Int")));
    assert_eq!(sort_of(&mut context, &bool_type(), &cache), Ok(String::from("Bool")));
    assert_eq!(sort_of(&mut context, &Type::Primitive(PrimitiveType::UnitType), &cache), Ok(String::from("Bool")));
    assert_eq!(sort_of(&mut context, &Type::Primitive(PrimitiveType::FloatType), &cache), Ok(String::from("Real")));
    assert!(context.types.is_empty());
    assert!(context.datatypes.is_empty());
}

#[test]
fn type_variable_has_the_sort_of_its_binding_or_is_an_integer() {
    let cache = cache_with_types();
    let mut context = RefinementContext::new();
    assert_eq!(sort_of(&mut context, &Type::TypeVariable(0), &cache), Ok(String::from("Int")));
    assert_eq!(sort_of(&mut context, &Type::TypeVariable(1), &cache), Ok(String::from("Bool")));
    assert_eq!(sort_of(&mut context, &Type::TypeVariable(2), &cache), Err(Fault::UnknownTypeVariable(2)));
}

#[test]
fn sum_type_is_a_datatype_with_a_constructor_for_each_variant() {
    let cache = cache_with_types();
    let mut context = RefinementContext::new();
    let option = Type::TypeApplication(Box::new(Type::UserDefined(TypeInfoId(2))), vec![i32_type()]);
    assert_eq!(sort_of(&mut context, &option, &cache), Ok(String::from("datatype Option")));
    assert_eq!(context.datatypes.len(), 1);
    let datatype = &context.datatypes[0];
    assert_eq!(datatype.name, "Option");
    assert_eq!(datatype.constructors.len(), 2);
    assert_eq!(datatype.constructors[0].name, "Option$None$1");
    assert!(datatype.constructors[0].fields.is_empty());
    assert_eq!(datatype.constructors[1].name, "Option$Some$2");
    assert_eq!(datatype.constructors[1].fields.len(), 1);
    assert_eq!(datatype.constructors[1].fields[0].name, "Option$Some$0");
    assert_eq!(name_of(&datatype.constructors[1].fields[0].sort), "Int");
    // The definition of each variant stands for its constructor: a value where the
    // variant holds nothing, a function of its fields else.
    match context.table.definition(DefinitionInfoId(1)).map(|known| known.value) {
        Some(RefinementValue::Pure(term)) => match &context.table.terms[term.0] {
            SolverTerm::Apply(Callee::Constructor(datatype, 0), args, Sort::Datatype(sort)) => {
                assert_eq!(datatype, "Option");
                assert_eq!(sort, "Option");
                assert!(args.is_empty());
            },
            other => panic!("{:?}", other),
        },
        other => panic!("{:?}", other),
    }
    match context.table.definition(DefinitionInfoId(2)).map(|known| known.value) {
        Some(RefinementValue::Function(Callee::Constructor(datatype, 1), parameters)) => {
            assert_eq!(datatype, "Option");
            assert_eq!(parameters.len(), 1);
            match &context.table.terms[parameters[0].0] {
                SolverTerm::Constant(name, Sort::Int) => assert_eq!(name, "Option$Some$0"),
                other => panic!("{:?}", other),
            }
        },
        other => panic!("{:?}", other),
    }
    assert!(context.table.definition(DefinitionInfoId(3)).is_none());
    // The datatype is declared once.
    let terms = context.table.terms.len();
    assert_eq!(sort_of(&mut context, &Type::UserDefined(TypeInfoId(2)), &cache), Ok(String::from("datatype Option")));
    assert_eq!(sort_of(&mut context, &option, &cache), Ok(String::from("datatype Option")));
    assert_eq!(context.datatypes.len(), 1);
    assert_eq!(context.table.values.len(), 2);
    assert_eq!(context.table.terms.len(), terms);
    assert_eq!(context.types.len(), 1);
}

#[test]
fn struct_is_a_datatype_with_one_constructor() {
    let cache = cache_with_types();
    let mut context = RefinementContext::new();
    assert_eq!(sort_of(&mut context, &Type::UserDefined(TypeInfoId(3)), &cache), Ok(String::from("datatype Point$3")));
    let datatype = &context.datatypes[0];
    assert_eq!(datatype.name, "Point$3");
    assert_eq!(datatype.constructors.len(), 1);
    assert_eq!(datatype.constructors[0].name, "Point$3");
    let fields: Vec<(String, String)> =
        datatype.constructors[0].fields.iter().map(|field| (field.name.clone(), name_of(&field.sort))).collect();
    assert_eq!(fields, vec![(String::from("x"), String::from("Int")), (String::from("y"), String::from("Real"))]);
}

#[test]
fn alias_has_the_sort_of_what_it_stands_for() {
    let cache = cache_with_types();
    let mut context = RefinementContext::new();
    assert_eq!(sort_of(&mut context, &Type::UserDefined(TypeInfoId(4)), &cache), Ok(String::from("Bool")));
    assert_eq!(sort_of(&mut context, &Type::UserDefined(TypeInfoId(5)), &cache), Err(Fault::UnknownTypeBody(5)));
    assert_eq!(sort_of(&mut context, &Type::UserDefined(TypeInfoId(6)), &cache), Err(Fault::UnknownType(6)));
}

#[test]
fn function_type_is_a_sort_named_as_the_type_is_shown() {
    let cache = cache_with_types();
    let mut context = RefinementContext::new();
    let typ = function(vec![i32_type(), Type::UserDefined(TypeInfoId(2))], Type::TypeVariable(1));
    assert_eq!(sort_of(&mut context, &typ, &cache), Ok(String::from("sort (i32 - Option -> bool)")));
    // The parameters are encoded on the way.
    assert_eq!(context.datatypes.len(), 1);
    assert_eq!(context.types.len(), 2);
    // The type is remembered with its result followed.
    let followed = function(vec![i32_type(), Type::UserDefined(TypeInfoId(2))], bool_type());
    assert!(context.known_sort(&followed).is_some());
    assert!(context.known_sort(&typ).is_none());
}

#[test]
fn reference_is_a_sort_for_each_type_referred_to() {
    let cache = cache_with_types();
    let mut context = RefinementContext::new();
    let to = |typ: Type| Type::TypeApplication(Box::new(Type::Ref(0)), vec![typ]);
    assert_eq!(sort_of(&mut context, &to(i32_type()), &cache), Ok(String::from("sort ref_i32")));
    assert_eq!(sort_of(&mut context, &to(bool_type()), &cache), Ok(String::from("sort ref_bool")));
    assert_eq!(sort_of(&mut context, &to(i32_type()), &cache), Ok(String::from("sort ref_i32")));
    assert_eq!(context.types.len(), 2);
    assert_eq!(sort_of(&mut context, &Type::Ref(0), &cache), Err(Fault::KindError));
    let two = Type::TypeApplication(Box::new(Type::Ref(0)), vec![i32_type(), i32_type()]);
    assert_eq!(sort_of(&mut context, &two, &cache), Err(Fault::KindError));
    let applied = Type::TypeApplication(Box::new(i32_type()), vec![i32_type()]);
    assert_eq!(sort_of(&mut context, &applied, &cache), Err(Fault::KindError));
}

#[test]
fn encoding_stops_at_the_recursion_limit() {
    let mut cache = cache_with_types();
    // List = Nil | Cons List
    cache.type_infos.push(TypeInfo {
        args: vec![],
        name: String::from("List"),
        body: TypeInfoBody::Union(vec![TypeConstructor {
            name: String::from("Cons"),
            args: vec![Type::UserDefined(TypeInfoId(6))],
            id: DefinitionInfoId(3),
            location: Location::builtin(),
        }]),
        location: Location::builtin(),
    });
    let mut context = RefinementContext::new();
    assert_eq!(sort_of(&mut context, &Type::UserDefined(TypeInfoId(6)), &cache), Err(Fault::RecursionLimit));
    assert_eq!(context.type_to_sort(&i32_type(), &cache, 0).err(), Some(Fault::RecursionLimit));
}

fn definition(name: &str, kind: Option<DefinitionKind>) -> DefinitionInfo {
    DefinitionInfo {
        name: String::from(name),
        location: Location::builtin(),
        definition: kind,
        trait_info: None,
        trait_impl: None,
        required_traits: Vec::new(),
        mutable: false,
        typ: None,
    }
}

#[test]
fn operators_on_integers_are_operations_of_the_solver() {
    let context = RefinementContext::new();
    let plus = definition("+", None);
    let integers = function(vec![i32_type(), i32_type()], i32_type());
    let found = context.check_builtin(DefinitionInfoId(7), &plus, &integers).expect("the solver knows +");
    assert_eq!(found.name, "+$7");
    assert_eq!(found.first, "a");
    assert_eq!(found.second, "b");
    assert_eq!(found.operator, Operator::Add);
    let floats = function(
        vec![Type::Primitive(PrimitiveType::FloatType), Type::Primitive(PrimitiveType::FloatType)],
        Type::Primitive(PrimitiveType::FloatType),
    );
    assert!(context.check_builtin(DefinitionInfoId(7), &plus, &floats).is_none());
    assert!(context.check_builtin(DefinitionInfoId(7), &plus, &function(vec![i32_type()], i32_type())).is_none());
    assert!(context.check_builtin(DefinitionInfoId(7), &plus, &i32_type()).is_none());
    assert!(context.check_builtin(DefinitionInfoId(7), &definition("plus", None), &integers).is_none());
}

#[test]
fn each_operator_has_its_operation_and_its_own_parameters() {
    let table = [
        ("+", Operator::Add, ("a", "b")),
        ("-", Operator::Subtract, ("c", "d")),
        ("*", Operator::Multiply, ("e", "f")),
        ("/", Operator::Divide, ("g", "h")),
        ("<", Operator::LessThan, ("i", "j")),
        ("<=", Operator::LessThanOrEqual, ("k", "l")),
        (">", Operator::GreaterThan, ("m", "n")),
        (">=", Operator::GreaterThanOrEqual, ("o", "p")),
        ("==", Operator::Equal, ("q", "r")),
        ("!=", Operator::Distinct, ("s", "t")),
    ];
    for (name, operator, parameters) in table {
        assert_eq!(operator_of(&String::from(name)), Some(operator));
        assert_eq!(operator_parameters(operator), parameters);
    }
    assert_eq!(operator_of(&String::from("%")), None);
    assert_eq!(operator_of(&String::from("")), None);
}

#[test]
fn operator_is_declared_as_a_function_of_two_integers() {
    let mut cache = cache_with_types();
    cache.definition_infos.push(definition("<", None));
    let mut context = RefinementContext::new();
    let integers = function(vec![i32_type(), i32_type()], bool_type());
    let known = match context.refine_definition(DefinitionInfoId(0), &integers, &cache) {
        Ok(Step::Done(known)) => known,
        other => panic!("{:?}", other),
    };
    match &known.value {
        RefinementValue::Function(Callee::Declared(name), parameters) => {
            assert_eq!(name, "<$0");
            assert_eq!(parameters, &vec![TermId(0), TermId(1)]);
        },
        other => panic!("{:?}", other),
    }
    assert!(matches!(&context.table.terms[0], SolverTerm::Constant(name, Sort::Int) if name == "i"));
    assert!(matches!(&context.table.terms[1], SolverTerm::Constant(name, Sort::Int) if name == "j"));
    assert!(matches!(
        &context.table.terms[2],
        SolverTerm::Operation(Operator::LessThan, TermId(0), TermId(1))
    ));
    assert_eq!(context.table.functions.len(), 1);
    let declared = &context.table.functions[0];
    assert_eq!(declared.name, "<$0");
    assert_eq!(declared.parameters, vec![TermId(0), TermId(1)]);
    assert!(matches!(declared.domain[..], [Sort::Int, Sort::Int]));
    assert!(matches!(declared.range, Sort::Bool));
    assert_eq!(declared.body, TermId(2));
    assert!(matches!(context.table.get_sort(TermId(2)), Ok(Sort::Bool)));
    // The function is not kept for the definition: it is declared where it is met.
    assert!(context.table.definition(DefinitionInfoId(0)).is_none());
}

#[test]
fn definition_is_seen_before_it_is_encoded() {
    let mut cache = cache_with_types();
    cache.definition_infos.push(definition("f", Some(DefinitionKind::Definition(AstId(4)))));
    cache.definition_infos.push(definition("None", Some(DefinitionKind::TypeConstructor(Some(0)))));
    cache.definition_infos.push(definition("Some", Some(DefinitionKind::TypeConstructor(Some(1)))));
    cache.definition_infos.push(definition("puts", Some(DefinitionKind::Extern(AstId(5)))));
    cache.definition_infos.push(definition("x", Some(DefinitionKind::Parameter)));
    cache.definition_infos.push(definition("lost", None));
    let mut context = RefinementContext::new();
    let typ = function(vec![i32_type()], Type::UserDefined(TypeInfoId(2)));
    assert!(context.table.definition(DefinitionInfoId(0)).is_none());
    let constant = match context.refine_definition(DefinitionInfoId(0), &typ, &cache) {
        Ok(Step::Body(node, constant)) => {
            assert_eq!(node, AstId(4));
            constant
        },
        other => panic!("{:?}", other),
    };
    match &context.table.terms[constant.0] {
        SolverTerm::Constant(name, Sort::Uninterpreted(sort)) => {
            assert_eq!(name, "f$0");
            assert_eq!(sort, "(i32 -> Option)");
        },
        other => panic!("{:?}", other),
    }
    // A definition that refers to itself finds the constant that stands for it.
    match context.refine_definition(DefinitionInfoId(0), &typ, &cache) {
        Ok(Step::Done(known)) => assert!(matches!(known.value, RefinementValue::Pure(term) if term == constant)),
        other => panic!("{:?}", other),
    }
    // The constructors were declared with the type of the result of `f`.
    match context.refine_definition(DefinitionInfoId(2), &typ, &cache) {
        Ok(Step::Done(known)) => {
            assert!(matches!(known.value, RefinementValue::Function(Callee::Constructor(_, 1), _)))
        },
        other => panic!("{:?}", other),
    }
    match context.refine_definition(DefinitionInfoId(3), &i32_type(), &cache) {
        Ok(Step::Done(known)) => assert!(matches!(known.value, RefinementValue::Impure)),
        other => panic!("{:?}", other),
    }
    match context.refine_definition(DefinitionInfoId(4), &bool_type(), &cache) {
        Ok(Step::Done(known)) => match known.value {
            RefinementValue::Pure(term) => {
                assert!(matches!(&context.table.terms[term.0], SolverTerm::Constant(name, Sort::Bool) if name == "x$4"))
            },
            other => panic!("{:?}", other),
        },
        other => panic!("{:?}", other),
    }
    assert_eq!(context.refine_definition(DefinitionInfoId(5), &i32_type(), &cache).err(), Some(Fault::Malformed));
    assert_eq!(
        context.refine_definition(DefinitionInfoId(9), &i32_type(), &cache).err(),
        Some(Fault::UnknownDefinition(9))
    );
}

#[test]
fn constructor_met_first_is_declared_with_its_type() {
    let mut cache = cache_with_types();
    cache.definition_infos.push(definition("unused", None));
    cache.definition_infos.push(definition("None", Some(DefinitionKind::TypeConstructor(Some(0)))));
    let mut context = RefinementContext::new();
    match context.refine_definition(DefinitionInfoId(1), &Type::UserDefined(TypeInfoId(2)), &cache) {
        Ok(Step::Done(known)) => match known.value {
            RefinementValue::Pure(term) => assert!(matches!(
                &context.table.terms[term.0],
                SolverTerm::Apply(Callee::Constructor(_, 0), _, Sort::Datatype(_))
            )),
            other => panic!("{:?}", other),
        },
        other => panic!("{:?}", other),
    }
}

#[test]
fn hidden_constants_are_numbered() {
    let cache = cache_with_types();
    let mut context = RefinementContext::new();
    let first = context.hidden_variable(&i32_type(), &cache).unwrap();
    assert!(matches!(context.table.terms[first.0], SolverTerm::Hidden(0, Sort::Int)));
    match context.unrepresentable_value(&bool_type(), &cache) {
        Ok(RefinementValue::Pure(second)) => {
            assert_ne!(first, second);
            assert!(matches!(context.table.terms[second.0], SolverTerm::Hidden(1, Sort::Bool)));
        },
        other => panic!("{:?}", other),
    }
    assert_eq!(context.unrepresentable(&i32_type(), &cache).unwrap().get_value(), Some(TermId(2)));
    assert_eq!(context.hidden_variable(&Type::Ref(0), &cache).err(), Some(Fault::KindError));
    assert_eq!(context.next_hidden, 3);
    context.next_hidden = usize::MAX;
    assert_eq!(context.hidden_variable(&i32_type(), &cache).err(), Some(Fault::OutOfIds));
}

#[test]
fn literals_are_values_of_the_solver() {
    let mut context = RefinementContext::new();
    assert_eq!(context.bool_value(true).get_value(), Some(TermId(0)));
    assert_eq!(context.integer_value(7, true).get_value(), Some(TermId(1)));
    assert_eq!(context.float_value(2.5f64.to_bits()).get_value(), Some(TermId(2)));
    assert_eq!(context.string_value("text").get_value(), Some(TermId(3)));
    assert_eq!(context.variable("x$3", Sort::Real), TermId(4));
    assert!(matches!(context.table.terms[0], SolverTerm::Bool(true)));
    assert!(matches!(context.table.terms[1], SolverTerm::Integer(7, true)));
    assert!(matches!(context.table.terms[2], SolverTerm::Float(bits) if f64::from_bits(bits) == 2.5));
    assert!(matches!(&context.table.terms[3], SolverTerm::Text(text) if text == "text"));
    assert!(matches!(&context.table.terms[4], SolverTerm::Constant(name, Sort::Real) if name == "x$3"));
    let sorts: Vec<String> = (0..5).map(|id| name_of(&context.table.get_sort(TermId(id)).unwrap())).collect();
    assert_eq!(sorts, vec!["Bool", "Int", "Real", "String", "Real"]);
    assert_eq!(context.table.get_sort(TermId(5)).err(), Some(Fault::UnknownDefinition(5)));
}

fn node(kind: NodeKind, typ: Option<Type>) -> Node {
    Node { kind, location: Location::builtin(), typ }
}

fn variable_node(name: &str, id: usize, typ: Type) -> Node {
    node(
        NodeKind::Variable(Variable {
            name: String::from(name),
            definition: Some(DefinitionInfoId(id)),
            id: None,
            impl_scope: None,
            instantiation_mapping: Rc::new(HashMap::new()),
        }),
        Some(typ),
    )
}

/// The pattern `Some (x : i32)`, and the pattern `f 3` where `f` is no constructor.
fn patterns() -> (Program, ModuleCache) {
    let mut cache = cache_with_types();
    cache.definition_infos.push(definition("unused", None));
    cache.definition_infos.push(definition("None", Some(DefinitionKind::TypeConstructor(Some(0)))));
    cache.definition_infos.push(definition("Some", Some(DefinitionKind::TypeConstructor(Some(1)))));
    cache.definition_infos.push(definition("x", Some(DefinitionKind::MatchPattern)));
    cache.definition_infos.push(definition("f", Some(DefinitionKind::Parameter)));
    let option = Type::TypeApplication(Box::new(Type::UserDefined(TypeInfoId(2))), vec![i32_type()]);
    let program = Program {
        nodes: vec![
            variable_node("Some", 2, function(vec![i32_type()], option.clone())),
            variable_node("x", 3, i32_type()),
            node(NodeKind::TypeAnnotation(AstId(1), false), Some(i32_type())),
            node(NodeKind::FunctionCall(AstId(0), vec![AstId(2)]), Some(option)),
            variable_node("f", 4, function(vec![i32_type()], bool_type())),
            node(NodeKind::Literal(LiteralKind::Integer(3, IntegerKind::U8)), Some(i32_type())),
            node(NodeKind::FunctionCall(AstId(4), vec![AstId(5)]), Some(bool_type())),
            node(NodeKind::Import, None),
        ],
    };
    (program, cache)
}

#[test]
fn pattern_of_a_constructor_is_the_constructor_applied_to_its_parts() {
    let (program, cache) = patterns();
    let mut context = RefinementContext::new();
    let (refinements, ids) = context.refine_pattern(&program, AstId(3), &cache, 500).unwrap();
    assert_eq!(ids, vec![DefinitionInfoId(3)]);
    assert!(refinements.asserts.is_empty());
    assert!(refinements.bindings.is_empty());
    let x = match context.table.definition(DefinitionInfoId(3)).map(|known| known.value) {
        Some(RefinementValue::Pure(x)) => x,
        other => panic!("{:?}", other),
    };
    assert!(matches!(&context.table.terms[x.0], SolverTerm::Constant(name, Sort::Int) if name == "x$3"));
    match refinements.value {
        RefinementValue::Pure(term) => match &context.table.terms[term.0] {
            SolverTerm::Apply(Callee::Constructor(datatype, 1), args, Sort::Datatype(sort)) => {
                assert_eq!(datatype, "Option");
                assert_eq!(sort, "Option");
                assert_eq!(args, &vec![x]);
            },
            other => panic!("{:?}", other),
        },
        other => panic!("{:?}", other),
    }
}

#[test]
fn pattern_of_another_call_is_a_hidden_constant() {
    let (program, cache) = patterns();
    let mut context = RefinementContext::new();
    let (refinements, ids) = context.refine_pattern(&program, AstId(6), &cache, 500).unwrap();
    assert!(ids.is_empty());
    match refinements.value {
        RefinementValue::Pure(term) => {
            assert!(matches!(context.table.terms[term.0], SolverTerm::Hidden(0, Sort::Bool)))
        },
        other => panic!("{:?}", other),
    }
    assert!(matches!(context.table.terms[0], SolverTerm::Integer(3, false)));
    assert_eq!(context.refine_pattern(&program, AstId(7), &cache, 500).err(), Some(Fault::Malformed));
    assert_eq!(context.refine_pattern(&program, AstId(8), &cache, 500).err(), Some(Fault::Malformed));
    assert_eq!(context.refine_pattern(&program, AstId(3), &cache, 1).err(), Some(Fault::RecursionLimit));
}

#[test]
fn binding_a_pattern_says_that_it_is_its_value() {
    let (program, cache) = patterns();
    let mut context = RefinementContext::new();
    let (pattern, ids) = context.refine_pattern(&program, AstId(1), &cache, 500).unwrap();
    let x = pattern.get_value().unwrap();
    let value = context.integer_value(3, true);
    let three = value.get_value().unwrap();
    context.bind(&ids, pattern, value);
    let known = context.table.definition(DefinitionInfoId(3)).unwrap();
    assert!(matches!(known.value, RefinementValue::Unit));
    assert_eq!(known.bindings, vec![(x, three)]);
    // What is known of no definition is left as it is.
    let entries = context.table.values.len();
    context.bind(&vec![DefinitionInfoId(4)], Refinements::from_value(x), Refinements::impure());
    assert_eq!(context.table.values.len(), entries);
}

#[test]
fn function_with_a_pure_body_is_declared_with_its_condition() {
    let mut context = RefinementContext::new();
    let n = context.variable("n", Sort::Int);
    let zero = context.integer_value(0, true).get_value().unwrap();
    let condition = context.term(SolverTerm::Operation(Operator::GreaterThanOrEqual, n, zero));
    let body = context.term(SolverTerm::Operation(Operator::Add, n, n));
    let place = Location { file: 1, line: 2, column: 3 };
    let defined = context
        .define_function(
            "double$4",
            vec![Refinements::from_value(n)],
            Some(Refinements::from_value(condition)),
            Refinements::from_value(body),
            place,
        )
        .unwrap();
    match &defined.value {
        RefinementValue::Function(Callee::Declared(name), parameters) => {
            assert_eq!(name, "double$4");
            assert_eq!(parameters, &vec![n]);
        },
        other => panic!("{:?}", other),
    }
    assert_eq!(defined.asserts, vec![(condition, place)]);
    let declared = &context.table.functions[0];
    assert_eq!(declared.name, "double$4");
    assert!(matches!(declared.domain[..], [Sort::Int]));
    assert!(matches!(declared.range, Sort::Int));
    assert_eq!(declared.body, body);
    // A function whose body is impure is impure, and nothing is declared for it.
    let impure = context
        .define_function("g$5", vec![Refinements::from_value(n)], None, Refinements::impure(), place)
        .unwrap();
    assert!(matches!(impure.value, RefinementValue::Impure));
    assert_eq!(context.table.functions.len(), 1);
    // Each parameter has to be a term.
    assert_eq!(
        context
            .define_function("h$6", vec![Refinements::impure()], None, Refinements::from_value(body), place)
            .err(),
        Some(Fault::Malformed)
    );
    assert_eq!(
        context.define_function("h$6", vec![], None, Refinements::from_value(TermId(99)), place).err(),
        Some(Fault::UnknownDefinition(99))
    );
}

#[test]
fn refinements_are_combined_in_order() {
    let first = Refinements::new(
        RefinementValue::Pure(TermId(1)),
        vec![(TermId(2), Location::builtin())],
        vec![(TermId(3), TermId(4))],
    );
    let second = Refinements::new(RefinementValue::Impure, vec![(TermId(5), Location::builtin())], vec![]);
    let both = first.clone().combine(second.clone());
    assert!(matches!(both.value, RefinementValue::Pure(TermId(1))));
    assert_eq!(both.asserts, vec![(TermId(2), Location::builtin()), (TermId(5), Location::builtin())]);
    assert_eq!(both.bindings, vec![(TermId(3), TermId(4))]);
    let all = Refinements::combine_all(&vec![second.clone(), first.clone()]);
    assert!(matches!(all.value, RefinementValue::Unit));
    assert_eq!(all.asserts, vec![(TermId(5), Location::builtin()), (TermId(2), Location::builtin())]);
    let bound = first.clone().bind_to(Refinements::from_value(TermId(9)));
    assert!(matches!(bound.value, RefinementValue::Unit));
    assert_eq!(bound.bindings, vec![(TermId(3), TermId(4)), (TermId(1), TermId(9))]);
    assert!(matches!(first.clone().bind_to(second.clone()).value, RefinementValue::Impure));
    // A condition without a value asks for nothing.
    let unasked = first.clone().try_add_assert(Some(second), Location::builtin());
    assert_eq!(unasked.asserts.len(), 1);
    assert_eq!(first.try_add_assert(None, Location::builtin()).asserts.len(), 1);
}

#[test]
fn fields_of_a_variant_keep_their_order() {
    let mut cache = cache_with_types();
    // Shape = Dot | Box i32 bool float
    cache.type_infos.push(TypeInfo {
        args: vec![],
        name: String::from("Shape"),
        body: TypeInfoBody::Union(vec![
            TypeConstructor { name: String::from("Dot"), args: vec![], id: DefinitionInfoId(8), location: Location::builtin() },
            TypeConstructor {
                name: String::from("Box"),
                args: vec![i32_type(), bool_type(), Type::Primitive(PrimitiveType::FloatType)],
                id: DefinitionInfoId(9),
                location: Location::builtin(),
            },
        ]),
        location: Location::builtin(),
    });
    let mut context = RefinementContext::new();
    assert_eq!(sort_of(&mut context, &Type::UserDefined(TypeInfoId(6)), &cache), Ok(String::from("datatype Shape")));
    let constructor = &context.datatypes[0].constructors[1];
    assert_eq!(constructor.name, "Shape$Box$9");
    let fields: Vec<(String, String)> =
        constructor.fields.iter().map(|field| (field.name.clone(), name_of(&field.sort))).collect();
    assert_eq!(
        fields,
        vec![
            (String::from("Shape$Box$0"), String::from("Int")),
            (String::from("Shape$Box$1"), String::from("Bool")),
            (String::from("Shape$Box$2"), String::from("Real")),
        ]
    );
    match context.table.definition(DefinitionInfoId(9)).map(|known| known.value) {
        Some(RefinementValue::Function(Callee::Constructor(datatype, 1), parameters)) => {
            assert_eq!(datatype, "Shape");
            let constants: Vec<String> = parameters
                .iter()
                .map(|parameter| match &context.table.terms[parameter.0] {
                    SolverTerm::Constant(name, sort) => format!("{}: {}", name, name_of(sort)),
                    other => panic!("{:?}", other),
                })
                .collect();
            assert_eq!(constants, vec!["Shape$Box$0: Int", "Shape$Box$1: Bool", "Shape$Box$2: Real"]);
        },
        other => panic!("{:?}", other),
    }
    assert!(matches!(
        context.table.definition(DefinitionInfoId(8)).map(|known| known.value),
        Some(RefinementValue::Pure(_))
    ));
}
