use ante::cache::{ModuleCache, TypeBinding};
use ante::constraints::make_tuple_type;
use ante::context::Context;
use ante::error::{Fault, Location, UnificationError};
use ante::generalize::{find_all_typevars, generalize, sort_and_dedup};
use ante::substitute::{
    bind_typevars, contains_any_typevars_from_list, replace_all_typevars, replace_typevars,
};
use ante::types::{
    FunctionType, GeneralizedType, IntegerKind, LetBindingLevel, PrimitiveType, Type, TypeInfoId,
};
use ante::unify::{
    follow_bindings_in_cache, try_unify, try_unify_all_with_bindings, unify, UnificationBindings,
};
use std::collections::HashMap;

fn i32_type() -> Type {
    Type::Primitive(PrimitiveType::IntegerType(IntegerKind::I32))
}

fn bool_type() -> Type {
    Type::Primitive(PrimitiveType::BooleanType)
}

fn unit_type() -> Type {
    Type::Primitive(PrimitiveType::UnitType)
}

fn function(parameters: Vec<Type>, return_type: Type) -> Type {
    Type::Function(FunctionType {
        parameters,
        return_type: Box::new(return_type),
        environment: Box::new(unit_type()),
        is_varargs: false,
    })
}

fn varargs(parameters: Vec<Type>, return_type: Type) -> Type {
    Type::Function(FunctionType {
        parameters,
        return_type: Box::new(return_type),
        environment: Box::new(unit_type()),
        is_varargs: true,
    })
}

fn variable(id: usize) -> Type {
    Type::TypeVariable(id)
}

/// A cache with unbound type variables at the levels, in order.
fn cache_at(levels: &[usize]) -> ModuleCache {
    let mut cache = ModuleCache::new();
    for level in levels {
        cache.next_type_variable_id(LetBindingLevel(*level));
    }
    cache
}

/// The type with every bound variable in it replaced by what it is bound to.
fn resolved(typ: &Type, cache: &ModuleCache) -> Type {
    match follow_bindings_in_cache(typ, cache).expect("the type can be followed") {
        Type::Function(f) => Type::Function(FunctionType {
            parameters: f.parameters.iter().map(|parameter| resolved(parameter, cache)).collect(),
            return_type: Box::new(resolved(&f.return_type, cache)),
            environment: Box::new(resolved(&f.environment, cache)),
            is_varargs: f.is_varargs,
        }),
        Type::TypeApplication(constructor, args) => Type::TypeApplication(
            Box::new(resolved(&constructor, cache)),
            args.iter().map(|arg| resolved(arg, cache)).collect(),
        ),
        other => other,
    }
}

#[test]
fn unified_types_are_equal_once_their_bindings_are_followed() {
    let mut cache = cache_at(&[1, 1, 1]);
    let first = function(vec![variable(0), i32_type()], variable(1));
    let second = function(vec![bool_type(), variable(2)], variable(0));
    unify(&first, &second, Location::builtin(), &mut cache);
    assert!(cache.diagnostics.is_empty(), "{:?}", cache.diagnostics);
    let expected = function(vec![bool_type(), i32_type()], bool_type());
    assert_eq!(resolved(&first, &cache), expected);
    assert_eq!(resolved(&second, &cache), expected);
}

#[test]
fn types_that_do_not_unify_leave_the_bindings_as_they_are() {
    let mut cache = cache_at(&[1]);
    let first = function(vec![variable(0)], i32_type());
    let second = function(vec![bool_type()], unit_type());
    unify(&first, &second, Location { file: 2, line: 3, column: 4 }, &mut cache);
    assert_eq!(cache.diagnostics.len(), 1);
    assert_eq!(cache.diagnostics[0].location, Location { file: 2, line: 3, column: 4 });
    assert!(matches!(cache.type_bindings[0], TypeBinding::Unbound(LetBindingLevel(1), _)));
}

#[test]
fn functions_of_different_parameter_counts_do_not_unify() {
    let cache = cache_at(&[]);
    let one = function(vec![i32_type()], unit_type());
    let two = function(vec![i32_type(), i32_type()], unit_type());
    let error = try_unify(&one, &two, Location::builtin(), &cache).unwrap_err();
    assert!(matches!(error.error, UnificationError::ArgumentCountMismatch(_, _)), "{:?}", error);
}

#[test]
fn varargs_function_unifies_with_a_function_of_more_parameters() {
    let cache = cache_at(&[1]);
    let printf = varargs(vec![variable(0)], unit_type());
    let call = function(vec![i32_type(), bool_type(), bool_type()], unit_type());
    let bindings = try_unify(&printf, &call, Location::builtin(), &cache).unwrap();
    assert_eq!(bindings.bindings.get(&0), Some(&i32_type()));
    let fewer = function(vec![], unit_type());
    assert!(try_unify(&printf, &fewer, Location::builtin(), &cache).is_err());
}

#[test]
fn applications_of_different_argument_counts_do_not_unify() {
    let cache = cache_at(&[]);
    let one = Type::TypeApplication(Box::new(Type::UserDefined(TypeInfoId(0))), vec![i32_type()]);
    let two = Type::TypeApplication(Box::new(Type::UserDefined(TypeInfoId(0))), vec![i32_type(), i32_type()]);
    let error = try_unify(&one, &two, Location::builtin(), &cache).unwrap_err();
    assert!(matches!(error.error, UnificationError::ArityMismatch(_, _)), "{:?}", error);
}

#[test]
fn lists_of_different_lengths_do_not_unify() {
    let cache = cache_at(&[]);
    let error = try_unify_all_with_bindings(
        &vec![i32_type()],
        &vec![i32_type(), i32_type()],
        UnificationBindings::empty(),
        Location::builtin(),
        &cache,
    )
    .unwrap_err();
    assert!(matches!(error.error, UnificationError::LengthMismatch(_, _)), "{:?}", error);
}

#[test]
fn type_variable_that_the_cache_does_not_hold_is_a_fault() {
    let cache = cache_at(&[]);
    let error = try_unify(&variable(3), &i32_type(), Location::builtin(), &cache).unwrap_err();
    assert!(matches!(error.error, UnificationError::Internal(Fault::UnknownTypeVariable(3))), "{:?}", error);
    assert_eq!(follow_bindings_in_cache(&variable(3), &cache), Err(Fault::UnknownTypeVariable(3)));
}

#[test]
fn following_bindings_twice_is_following_them_once() {
    let mut cache = cache_at(&[1, 1, 1]);
    cache.type_bindings[0] = TypeBinding::Bound(variable(1));
    cache.type_bindings[1] = TypeBinding::Bound(function(vec![variable(2)], variable(0)));
    let once = follow_bindings_in_cache(&variable(0), &cache).unwrap();
    assert_eq!(once, function(vec![variable(2)], variable(0)));
    assert_eq!(follow_bindings_in_cache(&once, &cache), Ok(once));
    let unbound = follow_bindings_in_cache(&variable(2), &cache).unwrap();
    assert_eq!(unbound, variable(2));
    assert_eq!(follow_bindings_in_cache(&unbound, &cache), Ok(variable(2)));
}

#[test]
fn following_all_bindings_twice_is_following_them_once() {
    let mut cache = cache_at(&[1, 1, 1]);
    cache.type_bindings[0] = TypeBinding::Bound(function(vec![variable(1), variable(2)], variable(1)));
    cache.type_bindings[1] = TypeBinding::Bound(i32_type());
    let context = Context::new(cache);
    let once = context.follow_all_bindings(&variable(0)).unwrap();
    assert_eq!(once, function(vec![i32_type(), variable(2)], i32_type()));
    assert_eq!(context.follow_all_bindings(&once), Ok(once));
}

#[test]
fn chain_of_bindings_longer_than_the_limit_is_a_fault() {
    let mut cache = cache_at(&[1; 600]);
    for id in 0..599 {
        cache.type_bindings[id] = TypeBinding::Bound(variable(id + 1));
    }
    assert_eq!(follow_bindings_in_cache(&variable(0), &cache), Err(Fault::RecursionLimit));
    assert_eq!(follow_bindings_in_cache(&variable(200), &cache), Ok(variable(599)));
}

#[test]
fn generalisation_quantifies_the_variables_above_the_level_in_force_only() {
    let mut cache = cache_at(&[2, 1, 2, 0]);
    cache.current_level = 1;
    let typ = function(vec![variable(2), variable(1), variable(0)], variable(2));
    match generalize(&typ, &cache) {
        Ok(GeneralizedType::PolyType(variables, body)) => {
            assert_eq!(variables, vec![0, 2]);
            assert_eq!(body, typ);
        },
        other => panic!("{:?}", other),
    }
    // Nothing is quantified where every variable is of an enclosing definition.
    let outer = function(vec![variable(1)], variable(3));
    match generalize(&outer, &cache) {
        Ok(GeneralizedType::MonoType(body)) => assert_eq!(body, outer),
        other => panic!("{:?}", other),
    }
    cache.current_level = 2;
    assert!(matches!(generalize(&typ, &cache), Ok(GeneralizedType::MonoType(_))));
}

#[test]
fn generalisation_looks_through_bindings() {
    let mut cache = cache_at(&[1, 2]);
    cache.type_bindings[0] = TypeBinding::Bound(function(vec![variable(1)], i32_type()));
    cache.current_level = 1;
    match generalize(&variable(0), &cache) {
        Ok(GeneralizedType::PolyType(variables, _)) => assert_eq!(variables, vec![1]),
        other => panic!("{:?}", other),
    }
}

#[test]
fn instantiation_replaces_the_quantified_variables_by_new_ones() {
    let mut cache = cache_at(&[2, 1]);
    let scheme = GeneralizedType::PolyType(vec![0], function(vec![variable(0), variable(1)], variable(0)));
    let (typ, traits, bindings) = scheme.instantiate(Vec::new(), &mut cache).unwrap();
    assert!(traits.is_empty());
    assert_eq!(cache.type_bindings.len(), 3);
    assert_eq!(typ, function(vec![variable(2), variable(1)], variable(2)));
    assert_eq!(bindings.len(), 1);
    assert_eq!(bindings.get(&0), Some(&variable(2)));
    // Another instance has variables of its own.
    let (again, _, _) = scheme.instantiate(Vec::new(), &mut cache).unwrap();
    assert_eq!(again, function(vec![variable(3), variable(1)], variable(3)));
    // A type without quantifiers is its own instance.
    let plain = GeneralizedType::MonoType(function(vec![variable(0)], variable(1)));
    let (same, _, none) = plain.instantiate(Vec::new(), &mut cache).unwrap();
    assert_eq!(same, function(vec![variable(0)], variable(1)));
    assert!(none.is_empty());
    assert_eq!(cache.type_bindings.len(), 4);
}

#[test]
fn bindings_are_put_in_place_of_their_variables() {
    let mut cache = cache_at(&[1, 1, 1]);
    cache.type_bindings[2] = TypeBinding::Bound(variable(0));
    let mut bindings = HashMap::new();
    bindings.insert(0usize, i32_type());
    let typ = function(vec![variable(0), variable(1)], variable(2));
    assert_eq!(bind_typevars(&typ, &bindings, &cache), Ok(function(vec![i32_type(), variable(1)], i32_type())));
    assert_eq!(bind_typevars(&variable(7), &bindings, &cache), Err(Fault::UnknownTypeVariable(7)));
}

#[test]
fn every_type_variable_is_replaced_by_one_new_variable() {
    let mut cache = cache_at(&[1, 1]);
    let types = vec![function(vec![variable(0)], variable(1)), variable(0)];
    let (replaced, bindings) = replace_all_typevars(&types, &mut cache).unwrap();
    assert_eq!(replaced, vec![function(vec![variable(2)], variable(3)), variable(2)]);
    assert_eq!(bindings.get(&0), Some(&variable(2)));
    assert_eq!(bindings.get(&1), Some(&variable(3)));
    assert_eq!(cache.type_bindings.len(), 4);
}

#[test]
fn variables_are_renamed_as_the_table_says() {
    let cache = cache_at(&[1, 1, 1]);
    let mut renaming = HashMap::new();
    renaming.insert(0usize, 2usize);
    let typ = function(vec![variable(0)], variable(1));
    assert_eq!(replace_typevars(&typ, &renaming, &cache), Ok(function(vec![variable(2)], variable(1))));
}

#[test]
fn type_mentions_a_variable_of_the_list_also_behind_a_binding() {
    let mut cache = cache_at(&[1, 1, 1]);
    cache.type_bindings[0] = TypeBinding::Bound(function(vec![variable(1)], i32_type()));
    assert_eq!(contains_any_typevars_from_list(&variable(0), &vec![1], &cache), Ok(true));
    assert_eq!(contains_any_typevars_from_list(&variable(0), &vec![2], &cache), Ok(false));
    assert_eq!(contains_any_typevars_from_list(&variable(2), &vec![0, 2], &cache), Ok(true));
    assert_eq!(contains_any_typevars_from_list(&i32_type(), &vec![0, 1, 2], &cache), Ok(false));
    assert_eq!(contains_any_typevars_from_list(&variable(2), &vec![], &cache), Ok(false));
}

#[test]
fn type_variables_are_found_in_the_order_of_the_type() {
    let mut cache = cache_at(&[1, 5, 1]);
    cache.type_bindings[2] = TypeBinding::Bound(variable(0));
    let typ = function(vec![variable(1), variable(2)], variable(1));
    assert_eq!(find_all_typevars(&typ, false, &cache), Ok(vec![1, 0, 1]));
    assert_eq!(find_all_typevars(&typ, true, &cache), Ok(vec![1, 1]));
    assert_eq!(sort_and_dedup(&vec![3, 1, 3, 2, 1]), vec![1, 2, 3]);
    assert_eq!(sort_and_dedup(&vec![]), Vec::<usize>::new());
}

#[test]
fn tuple_is_nested_pairs() {
    let pair = |first: Type, second: Type| {
        Type::TypeApplication(Box::new(Type::UserDefined(TypeInfoId(0))), vec![first, second])
    };
    assert_eq!(make_tuple_type(vec![i32_type(), bool_type()]), pair(i32_type(), bool_type()));
    assert_eq!(
        make_tuple_type(vec![i32_type(), bool_type(), unit_type()]),
        pair(i32_type(), pair(bool_type(), unit_type()))
    );
}

#[test]
fn lifetime_of_a_reference_is_bound_to_no_type() {
    let cache = cache_at(&[1, 1]);
    let mut bindings = HashMap::new();
    bindings.insert(0usize, i32_type());
    assert_eq!(bind_typevars(&Type::Ref(0), &bindings, &cache), Err(Fault::LifetimeBoundToType(0)));
    // It may be bound to another lifetime.
    bindings.insert(0usize, Type::Ref(1));
    assert_eq!(bind_typevars(&Type::Ref(0), &bindings, &cache), Ok(Type::Ref(1)));
}
