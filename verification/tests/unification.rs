use ante::cache::ModuleCache;
use ante::error::{Location, UnificationError};
use ante::types::{FunctionType, IntegerKind, LetBindingLevel, PrimitiveType, Type, TypeInfoId};
use ante::unify::{find_binding, follow_bindings_in_cache_and_map, try_unify, unify, UnificationBindings};
use std::collections::HashMap;

fn i32_type() -> Type {
    Type::Primitive(PrimitiveType::IntegerType(IntegerKind::I32))
}

fn unit_type() -> Type {
    Type::Primitive(PrimitiveType::UnitType)
}

fn function(parameters: Vec<Type>, return_type: Type) -> Type {
    Type::Function(FunctionType {
        parameters,
        return_type: Box::new(return_type),
        environment: Box::new(unit_type()),
        is_varargs: false,
    })
}

#[test]
fn equal_primitives_unify_without_bindings() {
    let cache = ModuleCache::new();
    let bindings = try_unify(&i32_type(), &i32_type(), Location::builtin(), &cache).unwrap();
    assert!(bindings.bindings.is_empty());
    assert!(bindings.level_bindings.is_empty());
}

#[test]
fn different_primitives_do_not_unify() {
    let cache = ModuleCache::new();
    let error = try_unify(&i32_type(), &unit_type(), Location::builtin(), &cache).unwrap_err();
    assert!(matches!(error.error, UnificationError::TypeMismatch(_, _)));
}

#[test]
fn variable_is_bound_to_the_other_side() {
    let mut cache = ModuleCache::new();
    let a = cache.next_type_variable(LetBindingLevel(1));
    let bindings = try_unify(&a, &i32_type(), Location::builtin(), &cache).unwrap();
    assert_eq!(bindings.bindings.get(&0), Some(&i32_type()));
}

#[test]
fn occurs_check_rejects_recursive_type() {
    let mut cache = ModuleCache::new();
    let a = cache.next_type_variable(LetBindingLevel(1));
    let list = Type::TypeApplication(Box::new(Type::UserDefined(TypeInfoId(7))), vec![a.clone()]);
    let error = try_unify(&a, &list, Location::builtin(), &cache).unwrap_err();
    assert!(matches!(error.error, UnificationError::RecursiveType(_, _)));
}

#[test]
fn unify_commits_to_the_cache_and_lowers_levels() {
    let mut cache = ModuleCache::new();
    let a = cache.next_type_variable(LetBindingLevel(1));
    let b = cache.next_type_variable(LetBindingLevel(3));
    let f = function(vec![b.clone()], i32_type());
    unify(&a, &f, Location::builtin(), &mut cache);
    assert!(cache.diagnostics.is_empty());
    match &cache.type_bindings[0] {
        ante::cache::TypeBinding::Bound(t) => assert_eq!(t, &f),
        other => panic!("expected a binding, found {:?}", other),
    }
    match &cache.type_bindings[1] {
        ante::cache::TypeBinding::Unbound(level, _) => assert_eq!(*level, LetBindingLevel(1)),
        other => panic!("expected an unbound variable, found {:?}", other),
    }
}

#[test]
fn variable_is_resolved_through_the_pending_bindings_first() {
    let mut cache = ModuleCache::new();
    cache.next_type_variable(LetBindingLevel(1));
    cache.next_type_variable(LetBindingLevel(2));
    cache.type_bindings[0] = ante::cache::TypeBinding::Bound(i32_type());
    let mut pending = HashMap::new();
    pending.insert(0usize, unit_type());
    let bindings = UnificationBindings::new(pending, Vec::new());
    // What is pending wins over what the cache holds.
    match find_binding(0, &bindings, &cache) {
        Ok(ante::cache::TypeBinding::Bound(found)) => assert_eq!(found, unit_type()),
        other => panic!("{:?}", other),
    }
    assert_eq!(follow_bindings_in_cache_and_map(&Type::TypeVariable(0), &bindings, &cache), Ok(unit_type()));
    // A variable that nothing binds is as the cache has it.
    match find_binding(1, &bindings, &cache) {
        Ok(ante::cache::TypeBinding::Unbound(level, _)) => assert_eq!(level, LetBindingLevel(2)),
        other => panic!("{:?}", other),
    }
    let none = UnificationBindings::empty();
    match find_binding(0, &none, &cache) {
        Ok(ante::cache::TypeBinding::Bound(found)) => assert_eq!(found, i32_type()),
        other => panic!("{:?}", other),
    }
    assert!(find_binding(2, &none, &cache).is_err());
}
