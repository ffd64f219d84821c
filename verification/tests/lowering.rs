use ante::cache::{DefinitionInfo, Field, ModuleCache, TraitInfo, TypeConstructor, TypeInfo, TypeInfoBody};
use ante::traits::{Callsite, ConstraintSignature, RequiredTrait};
use ante::context::Context;
use ante::error::{Fault, Location};
use ante::hir::{Ast, Builtin, CastOp, Literal};
use ante::hir_types;
use ante::types::{
    DefinitionInfoId, FunctionType, ImplInfoId, IntegerKind, LetBindingLevel, PrimitiveType,
    TraitConstraintId, TraitInfoId, Type, TypeInfoId, VariableId,
};

fn i32_type() -> Type {
    Type::Primitive(PrimitiveType::IntegerType(IntegerKind::I32))
}

fn unit_type() -> Type {
    Type::Primitive(PrimitiveType::UnitType)
}

fn function(parameters: Vec<Type>, return_type: Type, environment: Type) -> Type {
    Type::Function(FunctionType {
        parameters,
        return_type: Box::new(return_type),
        environment: Box::new(environment),
        is_varargs: false,
    })
}

fn lowered_i32() -> hir_types::Type {
    hir_types::Type::Primitive(hir_types::PrimitiveType::Integer(hir_types::IntegerKind::I32))
}

fn lowered_u8() -> hir_types::Type {
    hir_types::Type::Primitive(hir_types::PrimitiveType::Integer(hir_types::IntegerKind::U8))
}

/// A cache with the type `Option a = None | Some a` as type 0, where `a` is variable 0.
fn cache_with_option() -> ModuleCache {
    let mut cache = ModuleCache::new();
    cache.next_type_variable_id(LetBindingLevel(1));
    cache.type_infos.push(TypeInfo {
        args: vec![0],
        name: String::from("Option"),
        body: TypeInfoBody::Union(vec![
            TypeConstructor {
                name: String::from("None"),
                args: vec![],
                id: DefinitionInfoId(1),
                location: Location::builtin(),
            },
            TypeConstructor {
                name: String::from("Some"),
                args: vec![Type::TypeVariable(0)],
                id: DefinitionInfoId(2),
                location: Location::builtin(),
            },
        ]),
        location: Location::builtin(),
    });
    cache
}

fn option_of(argument: Type) -> Type {
    Type::TypeApplication(Box::new(Type::UserDefined(TypeInfoId(0))), vec![argument])
}

#[test]
fn primitives_are_lowered_to_primitives() {
    let mut context = Context::new(ModuleCache::new());
    assert_eq!(context.convert_type(&i32_type()), Ok(lowered_i32()));
    assert_eq!(
        context.convert_type(&unit_type()),
        Ok(hir_types::Type::Primitive(hir_types::PrimitiveType::Unit))
    );
    assert_eq!(
        context.convert_type(&Type::Primitive(PrimitiveType::Ptr)),
        Ok(hir_types::Type::Primitive(hir_types::PrimitiveType::Pointer))
    );
}

#[test]
fn integer_literal_without_kind_defaults_to_i32() {
    let mut cache = ModuleCache::new();
    let variable = cache.next_type_variable_id(LetBindingLevel(1));
    let context = Context::new(cache);
    assert_eq!(context.convert_integer_kind(IntegerKind::Unknown), Ok(hir_types::IntegerKind::I32));
    assert_eq!(
        context.convert_integer_kind(IntegerKind::Inferred(variable)),
        Ok(hir_types::IntegerKind::I32)
    );
    assert_eq!(context.convert_integer_kind(IntegerKind::U16), Ok(hir_types::IntegerKind::U16));
}

#[test]
fn unbound_type_variable_is_lowered_to_unit() {
    let mut cache = ModuleCache::new();
    let a = cache.next_type_variable(LetBindingLevel(1));
    let mut context = Context::new(cache);
    assert_eq!(
        context.convert_type(&a),
        Ok(hir_types::Type::Primitive(hir_types::PrimitiveType::Unit))
    );
}

#[test]
fn plain_function_is_lowered_to_function() {
    let mut context = Context::new(ModuleCache::new());
    let lowered = context.convert_type(&function(vec![i32_type()], i32_type(), unit_type())).unwrap();
    assert_eq!(
        lowered,
        hir_types::Type::Function(hir_types::FunctionType {
            parameters: vec![lowered_i32()],
            return_type: Box::new(lowered_i32()),
            is_varargs: false,
        })
    );
}

#[test]
fn closure_is_lowered_to_pair_of_function_and_environment() {
    let mut context = Context::new(ModuleCache::new());
    let pair = |first: Type, second: Type| {
        Type::TypeApplication(Box::new(Type::UserDefined(TypeInfoId(0))), vec![first, second])
    };
    let closure = |environment: hir_types::Type| {
        let with_environment = hir_types::Type::Function(hir_types::FunctionType {
            parameters: vec![lowered_i32(), environment.clone()],
            return_type: Box::new(lowered_i32()),
            is_varargs: false,
        });
        hir_types::Type::Tuple(vec![with_environment, environment])
    };
    // The environment is the tuple of what is captured: the type of the environment is
    // the tuple of the captured types that unit ends.
    let one = pair(i32_type(), unit_type());
    let lowered = context.convert_type(&function(vec![i32_type()], i32_type(), one)).unwrap();
    assert_eq!(lowered, closure(hir_types::Type::Tuple(vec![lowered_i32()])));
    let two = pair(i32_type(), pair(Type::Primitive(PrimitiveType::BooleanType), unit_type()));
    let lowered = context.convert_type(&function(vec![i32_type()], i32_type(), two)).unwrap();
    assert_eq!(
        lowered,
        closure(hir_types::Type::Tuple(vec![
            lowered_i32(),
            hir_types::Type::Primitive(hir_types::PrimitiveType::Boolean)
        ]))
    );
    // An environment of another type is one part.
    let lowered = context.convert_type(&function(vec![i32_type()], i32_type(), i32_type())).unwrap();
    assert_eq!(lowered, closure(hir_types::Type::Tuple(vec![lowered_i32()])));
}

#[test]
fn reference_without_argument_is_a_kind_error() {
    let mut cache = ModuleCache::new();
    let lifetime = cache.next_type_variable_id(LetBindingLevel(1));
    let mut context = Context::new(cache);
    assert_eq!(context.convert_type(&Type::Ref(lifetime)), Err(Fault::KindError));
    let applied = Type::TypeApplication(Box::new(Type::Ref(lifetime)), vec![i32_type()]);
    assert_eq!(
        context.convert_type(&applied),
        Ok(hir_types::Type::Primitive(hir_types::PrimitiveType::Pointer))
    );
}

#[test]
fn sum_type_is_tag_and_largest_variant() {
    let mut context = Context::new(cache_with_option());
    let lowered = context.convert_type(&option_of(i32_type())).unwrap();
    assert_eq!(lowered, hir_types::Type::Tuple(vec![lowered_u8(), lowered_i32()]));
    assert_eq!(context.size_of_monomorphised_type(&lowered), Ok(5));
    assert_eq!(context.size_of_type(&option_of(i32_type())), Ok(5));
}

#[test]
fn struct_is_tuple_of_fields() {
    let mut cache = ModuleCache::new();
    cache.type_infos.push(TypeInfo {
        args: vec![],
        name: String::from("Point"),
        body: TypeInfoBody::Struct(vec![
            Field { name: String::from("x"), field_type: i32_type(), location: Location::builtin() },
            Field {
                name: String::from("y"),
                field_type: Type::Primitive(PrimitiveType::FloatType),
                location: Location::builtin(),
            },
        ]),
        location: Location::builtin(),
    });
    let mut context = Context::new(cache);
    let point = Type::UserDefined(TypeInfoId(0));
    let lowered = context.convert_type(&point).unwrap();
    assert_eq!(
        lowered,
        hir_types::Type::Tuple(vec![
            lowered_i32(),
            hir_types::Type::Primitive(hir_types::PrimitiveType::Float),
        ])
    );
    assert_eq!(context.size_of_type(&point), Ok(12));
    assert_eq!(context.get_field_index(&String::from("y"), &point, 500), Ok(1));
    assert_eq!(context.get_field_index(&String::from("z"), &point, 500), Err(Fault::Malformed));
}

#[test]
fn wrong_number_of_type_arguments_is_a_kind_error() {
    let mut context = Context::new(cache_with_option());
    assert_eq!(context.convert_type(&Type::UserDefined(TypeInfoId(0))), Err(Fault::KindError));
    assert_eq!(context.convert_type(&Type::UserDefined(TypeInfoId(9))), Err(Fault::UnknownType(9)));
}

#[test]
fn sizes_follow_the_size_table() {
    let context = Context::new(ModuleCache::new());
    let pointer = std::mem::size_of::<usize>();
    assert_eq!(context.size_of_type(&Type::Primitive(PrimitiveType::FloatType)), Ok(8));
    assert_eq!(context.size_of_type(&Type::Primitive(PrimitiveType::CharType)), Ok(1));
    assert_eq!(context.size_of_type(&Type::Primitive(PrimitiveType::BooleanType)), Ok(1));
    assert_eq!(context.size_of_type(&unit_type()), Ok(1));
    assert_eq!(context.size_of_type(&Type::Primitive(PrimitiveType::Ptr)), Ok(pointer));
    assert_eq!(
        context.size_of_type(&Type::Primitive(PrimitiveType::IntegerType(IntegerKind::I64))),
        Ok(8)
    );
    assert_eq!(
        context.size_of_type(&Type::Primitive(PrimitiveType::IntegerType(IntegerKind::Usz))),
        Ok(pointer)
    );
    assert_eq!(context.size_of_type(&function(vec![], unit_type(), unit_type())), Ok(pointer));
}

#[test]
fn constructor_with_field_builds_tagged_tuple() {
    let mut context = Context::new(cache_with_option());
    let constructor = function(vec![i32_type()], option_of(i32_type()), unit_type());
    let lowered = context.monomorphise_type_constructor(&Some(1), &constructor).unwrap();
    match lowered {
        Ast::Lambda(lambda) => {
            assert_eq!(lambda.args.len(), 1);
            assert_eq!(lambda.args[0].0.definition_id.0, 0);
            match *lambda.body {
                Ast::ReinterpretCast(value, target) => {
                    assert_eq!(target, hir_types::Type::Tuple(vec![lowered_u8(), lowered_i32()]));
                    match *value {
                        Ast::Tuple(fields) => {
                            assert_eq!(fields.len(), 2);
                            assert!(matches!(
                                fields[0],
                                Ast::Literal(Literal::Integer(1, hir_types::IntegerKind::U8))
                            ));
                            assert!(matches!(&fields[1], Ast::Variable(v) if v.definition_id.0 == 0));
                        },
                        other => panic!("expected a tuple, found {:?}", other),
                    }
                },
                other => panic!("expected a cast, found {:?}", other),
            }
        },
        other => panic!("expected a lambda, found {:?}", other),
    }
}

#[test]
fn constructor_without_field_is_padded_tag() {
    let mut context = Context::new(cache_with_option());
    let lowered = context.monomorphise_type_constructor(&Some(0), &option_of(i32_type())).unwrap();
    match lowered {
        Ast::ReinterpretCast(value, target) => {
            assert_eq!(target, hir_types::Type::Tuple(vec![lowered_u8(), lowered_i32()]));
            match *value {
                Ast::Tuple(fields) => {
                    assert_eq!(fields.len(), 2);
                    assert!(matches!(
                        fields[0],
                        Ast::Literal(Literal::Integer(0, hir_types::IntegerKind::U8))
                    ));
                    assert!(matches!(
                        fields[1],
                        Ast::Literal(Literal::Integer(0, hir_types::IntegerKind::I32))
                    ));
                },
                other => panic!("expected a tuple, found {:?}", other),
            }
        },
        other => panic!("expected a cast, found {:?}", other),
    }
}

#[test]
fn cast_pads_with_largest_zeros_first() {
    let context = Context::new(ModuleCache::new());
    let target = hir_types::Type::Tuple(vec![
        hir_types::Type::Primitive(hir_types::PrimitiveType::Float),
        hir_types::Type::Primitive(hir_types::PrimitiveType::Float),
    ]);
    let value = ante::hir::tag_value(3);
    match context.make_reinterpret_cast(value, 1, target).unwrap() {
        Ast::ReinterpretCast(value, _) => match *value {
            Ast::Tuple(fields) => {
                // 15 bytes are missing: 8 + 4 + 2 + 1
                assert_eq!(fields.len(), 5);
                assert!(matches!(fields[1], Ast::Literal(Literal::Integer(0, hir_types::IntegerKind::I64))));
                assert!(matches!(fields[2], Ast::Literal(Literal::Integer(0, hir_types::IntegerKind::I32))));
                assert!(matches!(fields[3], Ast::Literal(Literal::Integer(0, hir_types::IntegerKind::I16))));
                assert!(matches!(fields[4], Ast::Literal(Literal::Integer(0, hir_types::IntegerKind::I8))));
            },
            other => panic!("expected a tuple, found {:?}", other),
        },
        other => panic!("expected a cast, found {:?}", other),
    }
}

#[test]
fn cast_of_a_value_of_the_size_of_the_target_is_not_padded() {
    let context = Context::new(ModuleCache::new());
    let value = ante::hir::tag_value(3);
    match context.make_reinterpret_cast(value, 4, lowered_i32()) {
        Ok(Ast::ReinterpretCast(inner, target)) => {
            assert!(matches!(*inner, Ast::Literal(Literal::Integer(3, hir_types::IntegerKind::U8))));
            assert_eq!(target, lowered_i32());
        },
        other => panic!("{:?}", other),
    }
}

#[test]
fn extract_from_load_moves_the_address() {
    let context = Context::new(ModuleCache::new());
    let tuple = hir_types::Type::Tuple(vec![lowered_i32(), lowered_u8(), lowered_i32()]);
    let load = Ast::Builtin(Builtin::Cast(CastOp::Deref, Box::new(ante::hir::unit_literal()), tuple));
    match context.extract(load, 2).unwrap() {
        Ast::Builtin(Builtin::Cast(CastOp::Deref, address, field)) => {
            assert_eq!(field, lowered_i32());
            match *address {
                Ast::Builtin(Builtin::Offset(_, offset, 1)) => {
                    assert!(matches!(
                        *offset,
                        Ast::Literal(Literal::Integer(5, hir_types::IntegerKind::Usz))
                    ));
                },
                other => panic!("expected an offset, found {:?}", other),
            }
        },
        other => panic!("expected a load, found {:?}", other),
    }
}

#[test]
fn extract_of_first_field_and_of_plain_value() {
    let context = Context::new(ModuleCache::new());
    let tuple = hir_types::Type::Tuple(vec![lowered_i32(), lowered_u8()]);
    let load = Ast::Builtin(Builtin::Cast(CastOp::Deref, Box::new(ante::hir::unit_literal()), tuple));
    assert!(matches!(
        context.extract(load, 0).unwrap(),
        Ast::Builtin(Builtin::Cast(CastOp::Deref, address, _)) if matches!(*address, Ast::Literal(Literal::Unit))
    ));
    assert!(matches!(context.extract(ante::hir::unit_literal(), 4).unwrap(), Ast::MemberAccess(_, 4)));
}

#[test]
fn integer_literal_whose_type_is_no_integer_is_a_fault() {
    let mut cache = ModuleCache::new();
    cache.next_type_variable_id(LetBindingLevel(1));
    cache.next_type_variable_id(LetBindingLevel(1));
    cache.next_type_variable_id(LetBindingLevel(1));
    cache.type_bindings[0] = ante::cache::TypeBinding::Bound(unit_type());
    cache.type_bindings[1] =
        ante::cache::TypeBinding::Bound(Type::Primitive(PrimitiveType::IntegerType(IntegerKind::U16)));
    let context = Context::new(cache);
    assert_eq!(context.convert_integer_kind(IntegerKind::Inferred(0)), Err(Fault::NotAnInteger));
    assert_eq!(context.convert_integer_kind(IntegerKind::Inferred(1)), Ok(hir_types::IntegerKind::U16));
    assert_eq!(context.convert_integer_kind(IntegerKind::Inferred(2)), Ok(hir_types::IntegerKind::I32));
    assert_eq!(context.convert_integer_kind(IntegerKind::Inferred(3)), Err(Fault::UnknownTypeVariable(3)));
    assert_eq!(context.convert_integer_kind(IntegerKind::Unknown), Ok(hir_types::IntegerKind::I32));
}

#[test]
fn chain_of_bindings_is_followed_where_it_ends_within_the_fuel() {
    let mut cache = ModuleCache::new();
    for _ in 0..600 {
        cache.next_type_variable_id(LetBindingLevel(1));
    }
    for id in 0..599 {
        cache.type_bindings[id] = ante::cache::TypeBinding::Bound(Type::TypeVariable(id + 1));
    }
    let context = Context::new(cache);
    assert!(!context.chain_ends(0, 500));
    assert!(!context.chain_ends(599, 0));
    assert_eq!(context.find_binding_within(0, 500), Err(Fault::RecursionLimit));
    assert!(context.chain_ends(200, 500));
    assert_eq!(context.find_binding(200, 500), Ok(Err(599)));
    assert_eq!(context.find_binding_within(200, 500), Ok(Err(599)));
    assert!(context.chain_ends(700, 1));
    assert_eq!(context.find_binding(700, 1), Err(Fault::UnknownTypeVariable(700)));
}

#[test]
fn required_trait_is_brought_into_a_scope_where_an_impl_is_entered_for_it() {
    let mut cache = ModuleCache::new();
    cache.trait_infos.push(TraitInfo {
        name: String::from("Show"),
        typeargs: Vec::new(),
        fundeps: Vec::new(),
        definitions: vec![DefinitionInfoId(1)],
        trait_node: None,
        location: Location::builtin(),
    });
    let required = |callsite: Callsite| RequiredTrait {
        signature: ConstraintSignature { trait_id: TraitInfoId(0), args: vec![i32_type()], id: TraitConstraintId(4) },
        callsite,
    };
    let definition = |required_traits: Vec<RequiredTrait>| DefinitionInfo {
        name: String::from("f"),
        location: Location::builtin(),
        definition: None,
        trait_info: None,
        trait_impl: None,
        required_traits,
        mutable: false,
        typ: None,
    };
    cache.definition_infos.push(definition(vec![required(Callsite::Indirect(VariableId(7), TraitConstraintId(2)))]));
    cache.definition_infos.push(definition(Vec::new()));
    cache.definition_infos.push(definition(vec![required(Callsite::GivenDirect(
        VariableId(7),
        TraitConstraintId(2),
    ))]));
    let mut context = Context::new(cache);
    let used_at = VariableId(3);
    // No impl is entered for the obligation that the use passes on.
    assert!(!context.has_required_traits(DefinitionInfoId(0), used_at));
    assert!(context.has_required_traits(DefinitionInfoId(1), used_at));
    context.indirect_impl_mappings.last_mut().unwrap().push(((used_at, TraitConstraintId(4)), ImplInfoId(5)));
    assert!(context.has_required_traits(DefinitionInfoId(0), used_at));
    assert!(!context.has_required_traits(DefinitionInfoId(0), VariableId(9)));
    // An obligation that a clause gives is not one that a definition requires.
    assert!(!context.has_required_traits(DefinitionInfoId(2), used_at));
    assert_eq!(context.add_required_traits(DefinitionInfoId(0), used_at), Ok(()));
    assert_eq!(context.indirect_impl_mappings.len(), 2);
    assert_eq!(
        context.indirect_impl_mappings[1],
        vec![((VariableId(7), TraitConstraintId(2)), ImplInfoId(5))]
    );
    assert_eq!(context.find_indirect(VariableId(7), TraitConstraintId(2)), Some(ImplInfoId(5)));
}
