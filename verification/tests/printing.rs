use ante::cache::{ModuleCache, TraitInfo, TypeBinding, TypeInfo, TypeInfoBody};
use ante::describe::{
    describe_type_and_traits, given_text, join_with, show_type_and_traits, sort_lines, text_before,
    without_repeated_lines,
};
use ante::error::{Fault, Location};
use ante::paint::{plain_text, render};
use ante::traits::{Callsite, ConstraintSignature, RequiredTrait};
use ante::typeprinter::{Span, TypePrinter};
use ante::types::{
    FunctionType, GeneralizedType, IntegerKind, LetBindingLevel, PrimitiveType, TraitConstraintId,
    TraitInfoId, Type, TypeInfoId, VariableId,
};
use std::collections::HashMap;

fn i32_type() -> Type {
    Type::Primitive(PrimitiveType::IntegerType(IntegerKind::I32))
}

fn unit_type() -> Type {
    Type::Primitive(PrimitiveType::UnitType)
}

fn function(parameters: Vec<Type>, return_type: Type) -> Type {
    Type::Function(FunctionType {
        parameters,
        return_type: Box::new(return_type),
        environment: Box::new(unit_type()),
        is_varargs: false,
    })
}

fn user_type(name: &str) -> TypeInfo {
    TypeInfo { args: Vec::new(), name: String::from(name), body: TypeInfoBody::Unknown, location: Location::builtin() }
}

/// A cache with the type of pairs, the type of strings and a type `Option`, and with
/// `variables` unbound type variables.
fn cache_with(variables: usize) -> ModuleCache {
    let mut cache = ModuleCache::new();
    cache.type_infos.push(user_type(","));
    cache.type_infos.push(user_type("string"));
    cache.type_infos.push(user_type("Option"));
    for _ in 0..variables {
        cache.next_type_variable_id(LetBindingLevel(1));
    }
    cache
}

fn shown(typ: Type, cache: &ModuleCache) -> String {
    let printer = TypePrinter::display_type(GeneralizedType::MonoType(typ), cache).expect("the variables can be named");
    printer.plain(cache).expect("the type can be shown")
}

#[test]
fn primitives_are_shown_by_their_names() {
    let cache = cache_with(0);
    assert_eq!(shown(i32_type(), &cache), "i32");
    assert_eq!(shown(Type::Primitive(PrimitiveType::IntegerType(IntegerKind::Usz)), &cache), "usz");
    assert_eq!(shown(Type::Primitive(PrimitiveType::IntegerType(IntegerKind::Unknown)), &cache), "int");
    assert_eq!(shown(Type::Primitive(PrimitiveType::FloatType), &cache), "float");
    assert_eq!(shown(Type::Primitive(PrimitiveType::CharType), &cache), "char");
    assert_eq!(shown(Type::Primitive(PrimitiveType::BooleanType), &cache), "bool");
    assert_eq!(shown(unit_type(), &cache), "unit");
    assert_eq!(shown(Type::Primitive(PrimitiveType::Ptr), &cache), "Ptr");
}

#[test]
fn type_variables_are_named_by_letters_in_the_order_they_are_found() {
    let cache = cache_with(3);
    let typ = function(vec![Type::TypeVariable(2), Type::TypeVariable(0)], Type::TypeVariable(2));
    assert_eq!(shown(typ, &cache), "(a - b -> a)");
}

#[test]
fn debug_printer_names_type_variables_by_their_numbers() {
    let mut cache = cache_with(13);
    cache.type_bindings[12] = TypeBinding::Bound(i32_type());
    let typ = function(vec![Type::TypeVariable(11), Type::TypeVariable(12)], Type::TypeVariable(3));
    let printer = TypePrinter::debug_type(GeneralizedType::MonoType(typ), &cache).unwrap();
    assert_eq!(printer.typevar_names.get(&11).map(String::as_str), Some("11"));
    assert_eq!(printer.typevar_names.get(&3).map(String::as_str), Some("3"));
    assert_eq!(printer.typevar_names.len(), 2);
    assert_eq!(printer.plain(&cache), Ok(String::from("(11 - i32 -> 3)")));
}

#[test]
fn closure_has_a_fat_arrow_and_varargs_have_dots() {
    let mut cache = cache_with(1);
    cache.type_bindings[0] = TypeBinding::Bound(unit_type());
    let closure = Type::Function(FunctionType {
        parameters: vec![i32_type()],
        return_type: Box::new(unit_type()),
        environment: Box::new(i32_type()),
        is_varargs: true,
    });
    assert_eq!(shown(closure, &cache), "(i32 ... => unit)");
    // An environment that is bound to unit is none.
    let plain = Type::Function(FunctionType {
        parameters: Vec::new(),
        return_type: Box::new(unit_type()),
        environment: Box::new(Type::TypeVariable(0)),
        is_varargs: false,
    });
    assert_eq!(shown(plain, &cache), "(-> unit)");
}

#[test]
fn pairs_are_shown_with_commas_and_without_nesting() {
    let cache = cache_with(0);
    let pair = |first: Type, second: Type| {
        Type::TypeApplication(Box::new(Type::UserDefined(TypeInfoId(0))), vec![first, second])
    };
    let triple = pair(
        i32_type(),
        pair(Type::Primitive(PrimitiveType::CharType), Type::Primitive(PrimitiveType::BooleanType)),
    );
    assert_eq!(shown(triple, &cache), "(i32, char, bool)");
    let left = pair(pair(i32_type(), i32_type()), unit_type());
    assert_eq!(shown(left, &cache), "((i32, i32), unit)");
    let wrong = Type::TypeApplication(Box::new(Type::UserDefined(TypeInfoId(0))), vec![i32_type()]);
    let printer = TypePrinter::new(GeneralizedType::MonoType(wrong), HashMap::new(), true);
    assert_eq!(printer.plain(&cache), Err(Fault::Malformed));
}

#[test]
fn applied_type_is_shown_with_its_arguments() {
    let cache = cache_with(1);
    let typ = Type::TypeApplication(
        Box::new(Type::UserDefined(TypeInfoId(2))),
        vec![i32_type(), Type::TypeVariable(0)],
    );
    assert_eq!(shown(typ, &cache), "(Option i32 a)");
    assert_eq!(shown(Type::UserDefined(TypeInfoId(1)), &cache), "string");
    let unknown = TypePrinter::new(GeneralizedType::MonoType(Type::UserDefined(TypeInfoId(9))), HashMap::new(), true);
    assert_eq!(unknown.plain(&cache), Err(Fault::UnknownType(9)));
}

#[test]
fn reference_shows_its_lifetime_only_to_the_compiler() {
    let cache = cache_with(4);
    let typ = || Type::TypeApplication(Box::new(Type::Ref(3)), vec![i32_type()]);
    let mut names = HashMap::new();
    names.insert(3usize, String::from("l"));
    let named = TypePrinter::new(GeneralizedType::MonoType(typ()), names, true);
    assert_eq!(named.plain(&cache), Ok(String::from("(ref{l} i32)")));
    let unnamed = TypePrinter::new(GeneralizedType::MonoType(typ()), HashMap::new(), true);
    assert_eq!(unnamed.plain(&cache), Ok(String::from("(ref{?3} i32)")));
    let quiet = TypePrinter::new(GeneralizedType::MonoType(typ()), HashMap::new(), false);
    assert_eq!(quiet.plain(&cache), Ok(String::from("(ref i32)")));
}

#[test]
fn quantifiers_are_shown_before_the_type() {
    let cache = cache_with(2);
    let typ = GeneralizedType::PolyType(
        vec![1, 0],
        function(vec![Type::TypeVariable(0)], Type::TypeVariable(1)),
    );
    let printer = TypePrinter::display_type(typ, &cache).unwrap();
    assert_eq!(printer.plain(&cache), Ok(String::from("(forall a b. (b -> a))")));
}

#[test]
fn variable_without_a_name_is_a_question_mark() {
    let cache = cache_with(1);
    let printer = TypePrinter::new(GeneralizedType::MonoType(Type::TypeVariable(0)), HashMap::new(), true);
    assert_eq!(printer.plain(&cache), Ok(String::from("?")));
    let unknown = TypePrinter::new(GeneralizedType::MonoType(Type::TypeVariable(5)), HashMap::new(), true);
    assert_eq!(unknown.plain(&cache), Err(Fault::UnknownTypeVariable(5)));
}

#[test]
fn there_are_names_for_twenty_four_type_variables() {
    let cache = cache_with(25);
    let many = |n: usize| function((0..n).map(Type::TypeVariable).collect(), unit_type());
    let printer = TypePrinter::display_type(GeneralizedType::MonoType(many(24)), &cache).unwrap();
    assert_eq!(printer.typevar_names.get(&0).map(String::as_str), Some("a"));
    assert_eq!(printer.typevar_names.get(&23).map(String::as_str), Some("x"));
    assert_eq!(
        TypePrinter::display_type(GeneralizedType::MonoType(many(25)), &cache).err(),
        Some(Fault::OutOfNames)
    );
}

#[test]
fn blue_spans_are_coloured_where_colours_are_on() {
    let cache = cache_with(0);
    let printer = TypePrinter::display_type(GeneralizedType::MonoType(i32_type()), &cache).unwrap();
    colored::control::set_override(true);
    assert_eq!(printer.display(&cache), Ok(String::from("\u{1b}[34mi32\u{1b}[0m")));
    let spans = vec![
        Span { text: String::from("("), blue: true },
        Span { text: String::from(" "), blue: false },
        Span { text: String::from(")"), blue: true },
    ];
    assert_eq!(render(&spans), "\u{1b}[34m(\u{1b}[0m \u{1b}[34m)\u{1b}[0m");
    assert_eq!(plain_text(&spans), "( )");
}

#[test]
fn blue_spans_are_plain_where_colours_are_off() {
    let cache = cache_with(1);
    let typ = function(vec![Type::TypeVariable(0)], i32_type());
    let printer = TypePrinter::display_type(GeneralizedType::MonoType(typ), &cache).unwrap();
    colored::control::set_override(false);
    assert_eq!(printer.display(&cache), Ok(String::from("(a -> i32)")));
    assert_eq!(printer.display(&cache), printer.plain(&cache));
}

#[test]
fn texts_are_ordered_as_in_a_dictionary() {
    assert!(text_before("Add a", "Show a"));
    assert!(!text_before("Show a", "Add a"));
    assert!(text_before("Add", "Add a"));
    assert!(!text_before("Add a", "Add"));
    assert!(!text_before("Add", "Add"));
    assert!(text_before("", "a"));
    assert!(!text_before("", ""));
    assert!(text_before("Z", "a"));
    assert!(text_before("a", "é"));
}

#[test]
fn lines_are_sorted_and_shown_once() {
    let lines: Vec<String> = ["Show a", "Add a", "Eq b", "Add a"].iter().map(|line| String::from(*line)).collect();
    let sorted = sort_lines(lines.clone());
    assert_eq!(sorted, vec!["Add a", "Add a", "Eq b", "Show a"]);
    let once = without_repeated_lines(&sorted);
    assert_eq!(once, vec!["Add a", "Eq b", "Show a"]);
    assert_eq!(join_with(&once, ", "), "Add a, Eq b, Show a");
    assert_eq!(join_with(&Vec::new(), ", "), "");
    assert_eq!(given_text(lines), "\n  given Add a, Eq b, Show a\n");
    assert_eq!(given_text(Vec::new()), "\n");
    // Only a line that repeats the one before it is left out.
    let apart: Vec<String> = ["a", "b", "a"].iter().map(|line| String::from(*line)).collect();
    assert_eq!(without_repeated_lines(&apart), vec!["a", "b", "a"]);
}

fn required(trait_id: usize, args: Vec<Type>, id: u32) -> RequiredTrait {
    RequiredTrait {
        signature: ConstraintSignature { trait_id: TraitInfoId(trait_id), args, id: TraitConstraintId(id) },
        callsite: Callsite::Direct(VariableId(id as usize)),
    }
}

fn cache_with_traits() -> ModuleCache {
    let mut cache = cache_with(3);
    for name in ["Show", "Add"] {
        cache.trait_infos.push(TraitInfo {
            name: String::from(name),
            typeargs: Vec::new(),
            fundeps: Vec::new(),
            definitions: Vec::new(),
            trait_node: None,
            location: Location::builtin(),
        });
    }
    cache
}

#[test]
fn type_and_traits_share_the_names_of_their_variables() {
    let cache = cache_with_traits();
    let typ = GeneralizedType::PolyType(
        vec![2],
        function(vec![Type::TypeVariable(2), Type::TypeVariable(2)], Type::TypeVariable(2)),
    );
    let traits = vec![
        required(0, vec![Type::TypeVariable(1)], 0),
        required(1, vec![Type::TypeVariable(2)], 1),
        required(1, vec![Type::TypeVariable(2)], 2),
    ];
    colored::control::set_override(false);
    assert_eq!(
        show_type_and_traits(&typ, &traits, &None, &cache),
        Ok(String::from("(forall a. (a - a -> a))\n  given Add a, Show b\n"))
    );
    let declared_in = Some((TraitInfoId(0), vec![Type::TypeVariable(0), i32_type()]));
    assert_eq!(
        show_type_and_traits(&typ, &traits, &declared_in, &cache),
        Ok(String::from("(forall a. (a - a -> a))\n  given Add a, Show b, Show c i32\n"))
    );
    assert_eq!(
        show_type_and_traits(&typ, &Vec::new(), &None, &cache),
        Ok(String::from("(forall a. (a - a -> a))\n"))
    );
    let (spans, lines) = describe_type_and_traits(&typ, &traits, &None, &cache).unwrap();
    assert_eq!(plain_text(&spans), "(forall a. (a - a -> a))");
    let texts: Vec<String> = lines.iter().map(plain_text).collect();
    assert_eq!(texts, vec!["Show b", "Add a", "Add a"]);
}

#[test]
fn trait_that_the_cache_does_not_hold_cannot_be_shown() {
    let cache = cache_with_traits();
    let typ = GeneralizedType::MonoType(i32_type());
    let traits = vec![required(7, vec![i32_type()], 0)];
    assert_eq!(show_type_and_traits(&typ, &traits, &None, &cache), Err(Fault::UnknownDefinition(7)));
}
