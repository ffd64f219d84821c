//! Showing types to the programmer. A type may hold type variables whose bindings are in the
//! cache, so that types are shown with the cache at hand. What is shown is a list of
//! spans of text, some of them in blue.
use vstd::prelude::*;
use vstd::string::{StrSliceExecFns, StringExecFns};
use std::collections::HashMap;
use crate::cache::{Binding, ModuleCache, TypeBinding};
use crate::error::Fault;
use crate::infer_state::{decimal, decimal_text};
use crate::types::{
    FunctionType, GeneralizedType, IntegerKind, PrimitiveType, Scheme, Term, Type, TypeInfoId,
    TypeVariableId, PAIR_TYPE,
};
use crate::unify::{follow, follow_bindings_in_cache, RECURSION_LIMIT};

verus! {

broadcast use vstd::std_specs::hash::group_hash_axioms;

/// A span of text, and whether it is shown in blue.
#[derive(Debug)]
pub struct Span {
    pub text: String,
    pub blue: bool,
}

/// The model of a [`Span`].
pub type Piece = (Seq<char>, bool);

impl View for Span {
    type V = Piece;

    open spec fn view(&self) -> Piece {
        (self.text@, self.blue)
    }
}

/// The models of the spans, in order.
pub open spec fn pieces_of(spans: Seq<Span>) -> Seq<Piece> {
    Seq::new(spans.len(), |i: int| spans[i]@)
}

/// The names that a printer has for type variables.
pub open spec fn names_of(names: Map<TypeVariableId, String>) -> Map<TypeVariableId, Seq<char>> {
    Map::new(|id: TypeVariableId| names.contains_key(id), |id: TypeVariableId| names[id]@)
}

/// What the showing of a type depends on beside the type.
pub struct Look {
    /// The name of each type variable that has one.
    pub names: Map<TypeVariableId, Seq<char>>,
    /// Whether what is there for the compiler only is shown too, like lifetimes.
    pub debug: bool,
    pub store: Seq<Binding>,
    /// The names of the user-defined types.
    pub types: Seq<Seq<char>>,
}

/// One span in blue.
pub open spec fn blue(text: Seq<char>) -> Seq<Piece> {
    seq![(text, true)]
}

/// One span in the colour of the surrounding text.
pub open spec fn plain(text: Seq<char>) -> Seq<Piece> {
    seq![(text, false)]
}

pub open spec fn kind_name(kind: IntegerKind) -> Seq<char> {
    match kind {
        IntegerKind::Unknown => "int"@,
        IntegerKind::Inferred(_) => "int"@,
        IntegerKind::I8 => "i8"@,
        IntegerKind::I16 => "i16"@,
        IntegerKind::I32 => "i32"@,
        IntegerKind::I64 => "i64"@,
        IntegerKind::Isz => "isz"@,
        IntegerKind::U8 => "u8"@,
        IntegerKind::U16 => "u16"@,
        IntegerKind::U32 => "u32"@,
        IntegerKind::U64 => "u64"@,
        IntegerKind::Usz => "usz"@,
    }
}

pub open spec fn primitive_name(primitive: PrimitiveType) -> Seq<char> {
    match primitive {
        PrimitiveType::IntegerType(kind) => kind_name(kind),
        PrimitiveType::FloatType => "float"@,
        PrimitiveType::CharType => "char"@,
        PrimitiveType::BooleanType => "bool"@,
        PrimitiveType::UnitType => "unit"@,
        PrimitiveType::Ptr => "Ptr"@,
    }
}

/// Is the type the type of pairs, before it is applied?
pub open spec fn is_pair_type(t: Term) -> bool {
    t == Term::UserDefined(TypeInfoId(PAIR_TYPE))
}

/// The arrow of a function type: a thin one for a function, a fat one for a closure.
pub open spec fn arrow(environment: Term) -> Seq<char> {
    if environment == Term::Primitive(PrimitiveType::UnitType) {
        "-> "@
    } else {
        "=> "@
    }
}

/// What is shown for a type.
pub open spec fn show(t: Term, look: Look, fuel: nat) -> Result<Seq<Piece>, Fault>
    decreases fuel, 1nat, 0nat,
{
    if fuel == 0 {
        Err(Fault::RecursionLimit)
    } else {
        match t {
            Term::Primitive(primitive) => Ok(blue(primitive_name(primitive))),
            Term::Function(parameters, return_type, environment, is_varargs) => match (
                show_parameters(parameters, 0, look, (fuel - 1) as nat),
                follow(*environment, Map::empty(), look.store, RECURSION_LIMIT as nat),
                show(*return_type, look, (fuel - 1) as nat),
            ) {
                (Err(fault), _, _) => Err(fault),
                (Ok(_), Err(fault), _) => Err(fault),
                (Ok(_), Ok(_), Err(fault)) => Err(fault),
                (Ok(shown), Ok(closed), Ok(result)) => Ok(
                    blue("("@) + shown + (if is_varargs {
                        blue("... "@)
                    } else {
                        Seq::empty()
                    }) + blue(arrow(closed)) + result + blue(")"@),
                ),
            },
            Term::TypeVariable(id) => show_variable(id, look, (fuel - 1) as nat),
            Term::UserDefined(id) => if id.0 >= look.types.len() {
                Err(Fault::UnknownType(id.0))
            } else {
                Ok(blue(look.types[id.0 as int]))
            },
            Term::TypeApplication(constructor, args) => {
                let inner = if is_pair_type(*constructor) {
                    show_pair(args, look, (fuel - 1) as nat)
                } else {
                    match (
                        show(*constructor, look, (fuel - 1) as nat),
                        show_arguments(args, 0, look, (fuel - 1) as nat),
                    ) {
                        (Err(fault), _) => Err(fault),
                        (Ok(_), Err(fault)) => Err(fault),
                        (Ok(first), Ok(rest)) => Ok(first + rest),
                    }
                };
                match inner {
                    Err(fault) => Err(fault),
                    Ok(shown) => Ok(blue("("@) + shown + blue(")"@)),
                }
            },
            Term::Ref(lifetime) => if lifetime >= look.store.len() {
                Err(Fault::UnknownTypeVariable(lifetime))
            } else {
                match look.store[lifetime as int] {
                    Binding::Bound(bound) => show(bound, look, (fuel - 1) as nat),
                    Binding::Unbound(_, _) => Ok(
                        blue("ref"@) + (if !look.debug {
                            Seq::empty()
                        } else if look.names.contains_key(lifetime) {
                            plain("{"@ + look.names[lifetime] + "}"@)
                        } else {
                            plain("{?"@ + decimal(lifetime as nat) + "}"@)
                        }),
                    ),
                }
            },
        }
    }
}

/// What is shown for a type variable: its binding, or else its name, or a question mark
/// where it has none.
pub open spec fn show_variable(id: TypeVariableId, look: Look, fuel: nat) -> Result<Seq<Piece>, Fault>
    decreases fuel, 0nat, 0nat,
{
    if id >= look.store.len() {
        Err(Fault::UnknownTypeVariable(id))
    } else {
        match look.store[id as int] {
            Binding::Bound(bound) => if fuel == 0 {
                Err(Fault::RecursionLimit)
            } else {
                show(bound, look, (fuel - 1) as nat)
            },
            Binding::Unbound(_, _) => Ok(
                blue(
                    if look.names.contains_key(id) {
                        look.names[id]
                    } else {
                        "?"@
                    },
                ),
            ),
        }
    }
}

/// What is shown for the parameters of a function from position `at` on: each is followed
/// by a space, and all but the last by a dash.
pub open spec fn show_parameters(parameters: Seq<Term>, at: nat, look: Look, fuel: nat) -> Result<Seq<Piece>, Fault>
    decreases fuel, 2nat, parameters.len() - at,
{
    if at >= parameters.len() {
        Ok(Seq::empty())
    } else {
        match (show(parameters[at as int], look, fuel), show_parameters(parameters, at + 1, look, fuel)) {
            (Err(fault), _) => Err(fault),
            (Ok(_), Err(fault)) => Err(fault),
            (Ok(first), Ok(rest)) => Ok(
                first + plain(" "@) + (if at + 1 != parameters.len() {
                    blue("- "@)
                } else {
                    Seq::empty()
                }) + rest,
            ),
        }
    }
}

/// What is shown for the arguments of a type from position `at` on, each after a space.
pub open spec fn show_arguments(args: Seq<Term>, at: nat, look: Look, fuel: nat) -> Result<Seq<Piece>, Fault>
    decreases fuel, 2nat, args.len() - at,
{
    if at >= args.len() {
        Ok(Seq::empty())
    } else {
        match (show(args[at as int], look, fuel), show_arguments(args, at + 1, look, fuel)) {
            (Err(fault), _) => Err(fault),
            (Ok(_), Err(fault)) => Err(fault),
            (Ok(first), Ok(rest)) => Ok(plain(" "@) + first + rest),
        }
    }
}

/// What is shown for the arguments of the type of pairs: the two with a comma between
/// them, where a pair on the right goes on without parentheses.
pub open spec fn show_pair(args: Seq<Term>, look: Look, fuel: nat) -> Result<Seq<Piece>, Fault>
    decreases fuel, 0nat, 0nat,
{
    if fuel == 0 {
        Err(Fault::RecursionLimit)
    } else if args.len() != 2 {
        Err(Fault::Malformed)
    } else {
        let second = match args[1] {
            Term::TypeApplication(constructor, inner) => if is_pair_type(*constructor) {
                show_pair(inner, look, (fuel - 1) as nat)
            } else {
                show(args[1], look, (fuel - 1) as nat)
            },
            _ => show(args[1], look, (fuel - 1) as nat),
        };
        match (show(args[0], look, (fuel - 1) as nat), second) {
            (Err(fault), _) => Err(fault),
            (Ok(_), Err(fault)) => Err(fault),
            (Ok(first), Ok(rest)) => Ok(first + blue(", "@) + rest),
        }
    }
}

/// What is shown for the quantified variables from position `at` on, each after a space.
pub open spec fn show_quantified(variables: Seq<TypeVariableId>, at: nat, look: Look) -> Result<Seq<Piece>, Fault>
    decreases variables.len() - at,
{
    if at >= variables.len() {
        Ok(Seq::empty())
    } else {
        match (
            show_variable(variables[at as int], look, RECURSION_LIMIT as nat),
            show_quantified(variables, at + 1, look),
        ) {
            (Err(fault), _) => Err(fault),
            (Ok(_), Err(fault)) => Err(fault),
            (Ok(first), Ok(rest)) => Ok(plain(" "@) + first + rest),
        }
    }
}

/// What is shown for a type with its quantifiers.
pub open spec fn show_scheme(scheme: Scheme, look: Look) -> Result<Seq<Piece>, Fault> {
    match scheme {
        Scheme::MonoType(t) => show(t, look, RECURSION_LIMIT as nat),
        Scheme::PolyType(variables, t) => match (
            show_quantified(variables, 0, look),
            show(t, look, RECURSION_LIMIT as nat),
        ) {
            (Err(fault), _) => Err(fault),
            (Ok(_), Err(fault)) => Err(fault),
            (Ok(quantified), Ok(body)) => Ok(blue("(forall"@) + quantified + blue(". "@) + body + blue(")"@)),
        },
    }
}

/// Does `result` say that the spans of the outcome were added to those there were, or hold
/// the fault of the outcome?
pub open spec fn writes(result: Result<(), Fault>, before: Seq<Piece>, after: Seq<Piece>, expected: Result<Seq<Piece>, Fault>) -> bool {
    match expected {
        Ok(pieces) => result is Ok && after == before + pieces,
        Err(fault) => result == Err::<(), Fault>(fault),
    }
}

/// Adds a span in blue.
pub fn push_blue(out: &mut Vec<Span>, text: &str)
    ensures
        pieces_of(final(out)@) == pieces_of(old(out)@) + blue(text@),
{
    out.push(Span { text: String::from_str(text), blue: true });
    assert(pieces_of(out@) =~= pieces_of(old(out)@) + blue(text@));
}

/// Adds a span in the colour of the surrounding text.
pub fn push_plain(out: &mut Vec<Span>, text: String)
    ensures
        pieces_of(final(out)@) == pieces_of(old(out)@) + plain(text@),
{
    out.push(Span { text, blue: false });
    assert(pieces_of(out@) =~= pieces_of(old(out)@) + plain(text@));
}

/// The name of the integer type.
pub fn integer_kind_name(kind: IntegerKind) -> (name: &'static str)
    ensures
        name@ == kind_name(kind),
{
    match kind {
        IntegerKind::Unknown => "int",
        IntegerKind::Inferred(_) => "int",
        IntegerKind::I8 => "i8",
        IntegerKind::I16 => "i16",
        IntegerKind::I32 => "i32",
        IntegerKind::I64 => "i64",
        IntegerKind::Isz => "isz",
        IntegerKind::U8 => "u8",
        IntegerKind::U16 => "u16",
        IntegerKind::U32 => "u32",
        IntegerKind::U64 => "u64",
        IntegerKind::Usz => "usz",
    }
}

/// The models of the names of the user-defined types.
pub open spec fn type_names(cache: &ModuleCache) -> Seq<Seq<char>> {
    Seq::new(cache.type_infos@.len(), |i: int| cache.type_infos@[i].name@)
}

/// Wrapper that holds what is needed to show a type, but for the cache.
pub struct TypePrinter {
    pub typ: GeneralizedType,
    /// Maps type variables to names that can be read, like a, b, c.
    pub typevar_names: HashMap<TypeVariableId, String>,
    /// Whether what is there for the compiler only is shown too, like lifetimes.
    pub debug: bool,
}

impl TypePrinter {
    /// What the showing depends on.
    pub open spec fn look(&self, cache: &ModuleCache) -> Look {
        Look {
            names: names_of(self.typevar_names@),
            debug: self.debug,
            store: cache.store(),
            types: type_names(cache),
        }
    }

    pub fn new(typ: GeneralizedType, typevar_names: HashMap<TypeVariableId, String>, debug: bool) -> (printer:
        TypePrinter)
        ensures
            printer.typ == typ,
            printer.typevar_names == typevar_names,
            printer.debug == debug,
    {
        TypePrinter { typ, typevar_names, debug }
    }

    /// The spans that show the type of the printer.
    pub fn spans(&self, cache: &ModuleCache) -> (result: Result<Vec<Span>, Fault>)
        ensures
            match show_scheme(self.typ@, self.look(cache)) {
                Ok(pieces) => result matches Ok(spans) && pieces_of(spans@) == pieces,
                Err(fault) => result matches Err(f) && f == fault,
            },
    {
        let mut out: Vec<Span> = Vec::new();
        assert(pieces_of(out@) =~= Seq::<Piece>::empty());
        match self.fmt_generalized_type(&self.typ, cache, &mut out) {
            Err(fault) => Err(fault),
            Ok(()) => {
                proof {
                    let pieces = show_scheme(self.typ@, self.look(cache))->Ok_0;
                    assert(Seq::<Piece>::empty() + pieces =~= pieces);
                }
                Ok(out)
            },
        }
    }

    pub fn fmt_generalized_type(&self, typ: &GeneralizedType, cache: &ModuleCache, out: &mut Vec<Span>) -> (result:
        Result<(), Fault>)
        ensures
            writes(result, pieces_of(old(out)@), pieces_of(final(out)@), show_scheme(typ@, self.look(cache))),
    {
        match typ {
            GeneralizedType::MonoType(typ) => self.fmt_type(typ, cache, out, RECURSION_LIMIT),
            GeneralizedType::PolyType(typevars, typ) => self.fmt_forall(typevars, typ, cache, out),
        }
    }

    pub fn fmt_type(&self, typ: &Type, cache: &ModuleCache, out: &mut Vec<Span>, fuel: u32) -> (result: Result<
        (),
        Fault,
    >)
        ensures
            writes(result, pieces_of(old(out)@), pieces_of(final(out)@), show(typ@, self.look(cache), fuel as nat)),
        decreases fuel, 1nat, 0nat,
    {
        if fuel == 0 {
            return Err(Fault::RecursionLimit);
        }
        let ghost before = pieces_of(out@);
        match typ {
            Type::Primitive(primitive) => {
                self.fmt_primitive(primitive, out);
                Ok(())
            },
            Type::Function(function) => {
                assert(typ@ == Term::Function(
                    crate::types::terms_of(function.parameters@),
                    Box::new(function.return_type@),
                    Box::new(function.environment@),
                    function.is_varargs,
                ));
                self.fmt_function(function, cache, out, fuel - 1)
            },
            Type::TypeVariable(id) => self.fmt_type_variable(*id, cache, out, fuel - 1),
            Type::UserDefined(id) => self.fmt_user_defined_type(*id, cache, out),
            Type::TypeApplication(constructor, args) => {
                assert(typ@ == Term::TypeApplication(Box::new(constructor@), crate::types::terms_of(args@)));
                self.fmt_type_application(constructor, args, cache, out, fuel - 1)
            },
            Type::Ref(lifetime) => self.fmt_ref(*lifetime, cache, out, fuel - 1),
        }
    }

    pub fn fmt_primitive(&self, primitive: &PrimitiveType, out: &mut Vec<Span>)
        ensures
            pieces_of(final(out)@) == pieces_of(old(out)@) + blue(primitive_name(*primitive)),
    {
        match primitive {
            PrimitiveType::IntegerType(kind) => push_blue(out, integer_kind_name(*kind)),
            PrimitiveType::FloatType => push_blue(out, "float"),
            PrimitiveType::CharType => push_blue(out, "char"),
            PrimitiveType::BooleanType => push_blue(out, "bool"),
            PrimitiveType::UnitType => push_blue(out, "unit"),
            PrimitiveType::Ptr => push_blue(out, "Ptr"),
        }
    }

    /// Shows the parameters from position `at` on.
    pub fn fmt_parameters(&self, parameters: &Vec<Type>, at: usize, cache: &ModuleCache, out: &mut Vec<Span>, fuel: u32) -> (result:
        Result<(), Fault>)
        ensures
            writes(
                result,
                pieces_of(old(out)@),
                pieces_of(final(out)@),
                show_parameters(crate::types::terms_of(parameters@), at as nat, self.look(cache), fuel as nat),
            ),
        decreases fuel, 2nat, parameters@.len() - at,
    {
        let ghost before = pieces_of(out@);
        let ghost terms = crate::types::terms_of(parameters@);
        if at >= parameters.len() {
            assert(before + Seq::<Piece>::empty() =~= before);
            return Ok(());
        }
        assert(terms[at as int] == parameters@[at as int]@);
        match self.fmt_type(&parameters[at], cache, out, fuel) {
            Err(fault) => {
                return Err(fault);
            },
            Ok(()) => {},
        }
        push_plain(out, String::from_str(" "));
        if at != parameters.len() - 1 {
            push_blue(out, "- ");
        }
        let ghost middle = pieces_of(out@);
        match self.fmt_parameters(parameters, at + 1, cache, out, fuel) {
            Err(fault) => Err(fault),
            Ok(()) => {
                proof {
                    let first = show(terms[at as int], self.look(cache), fuel as nat)->Ok_0;
                    let rest = show_parameters(terms, (at + 1) as nat, self.look(cache), fuel as nat)->Ok_0;
                    let dash = if at + 1 != parameters@.len() {
                        blue("- "@)
                    } else {
                        Seq::<Piece>::empty()
                    };
                    assert(middle =~= before + first + plain(" "@) + dash);
                    assert(middle + rest =~= before + (first + plain(" "@) + dash + rest));
                }
                Ok(())
            },
        }
    }

    pub fn fmt_function(&self, function: &FunctionType, cache: &ModuleCache, out: &mut Vec<Span>, fuel: u32) -> (result:
        Result<(), Fault>)
        ensures
            ({
                let look = self.look(cache);
                let expected = match (
                    show_parameters(crate::types::terms_of(function.parameters@), 0, look, fuel as nat),
                    follow(function.environment@, Map::empty(), look.store, RECURSION_LIMIT as nat),
                    show(function.return_type@, look, fuel as nat),
                ) {
                    (Err(fault), _, _) => Err(fault),
                    (Ok(_), Err(fault), _) => Err(fault),
                    (Ok(_), Ok(_), Err(fault)) => Err(fault),
                    (Ok(shown), Ok(closed), Ok(result)) => Ok(
                        blue("("@) + shown + (if function.is_varargs {
                            blue("... "@)
                        } else {
                            Seq::empty()
                        }) + blue(arrow(closed)) + result + blue(")"@),
                    ),
                };
                writes(result, pieces_of(old(out)@), pieces_of(final(out)@), expected)
            }),
        decreases fuel, 3nat, 0nat,
    {
        let ghost before = pieces_of(out@);
        let ghost look = self.look(cache);
        push_blue(out, "(");
        match self.fmt_parameters(&function.parameters, 0, cache, out, fuel) {
            Err(fault) => {
                return Err(fault);
            },
            Ok(()) => {},
        }
        if function.is_varargs {
            push_blue(out, "... ");
        }
        let closed = match follow_bindings_in_cache(&function.environment, cache) {
            Err(fault) => {
                return Err(fault);
            },
            Ok(closed) => closed,
        };
        let is_unit = match closed {
            Type::Primitive(PrimitiveType::UnitType) => true,
            _ => false,
        };
        assert(is_unit <==> closed@ == Term::Primitive(PrimitiveType::UnitType));
        if is_unit {
            push_blue(out, "-> ");
        } else {
            push_blue(out, "=> ");
        }
        let ghost middle = pieces_of(out@);
        match self.fmt_type(&function.return_type, cache, out, fuel) {
            Err(fault) => {
                return Err(fault);
            },
            Ok(()) => {},
        }
        push_blue(out, ")");
        proof {
            let shown = show_parameters(crate::types::terms_of(function.parameters@), 0, look, fuel as nat)->Ok_0;
            let result = show(function.return_type@, look, fuel as nat)->Ok_0;
            let dots = if function.is_varargs {
                blue("... "@)
            } else {
                Seq::<Piece>::empty()
            };
            assert(middle =~= before + blue("("@) + shown + dots + blue(arrow(closed@)));
            assert(pieces_of(out@) =~= before + (blue("("@) + shown + dots + blue(arrow(closed@)) + result + blue(
                ")"@,
            )));
        }
        Ok(())
    }

    pub fn fmt_type_variable(&self, id: TypeVariableId, cache: &ModuleCache, out: &mut Vec<Span>, fuel: u32) -> (result:
        Result<(), Fault>)
        ensures
            writes(
                result,
                pieces_of(old(out)@),
                pieces_of(final(out)@),
                show_variable(id, self.look(cache), fuel as nat),
            ),
        decreases fuel, 0nat, 0nat,
    {
        if id >= cache.type_bindings.len() {
            return Err(Fault::UnknownTypeVariable(id));
        }
        assert(cache.store()[id as int] == cache.type_bindings@[id as int]@);
        match &cache.type_bindings[id] {
            TypeBinding::Bound(typ) => {
                if fuel == 0 {
                    return Err(Fault::RecursionLimit);
                }
                self.fmt_type(typ, cache, out, fuel - 1)
            },
            TypeBinding::Unbound(_, _) => {
                match self.typevar_names.get(&id) {
                    Some(name) => push_blue(out, name.as_str()),
                    None => push_blue(out, "?"),
                }
                Ok(())
            },
        }
    }

    pub fn fmt_user_defined_type(&self, id: TypeInfoId, cache: &ModuleCache, out: &mut Vec<Span>) -> (result: Result<
        (),
        Fault,
    >)
        ensures
            writes(
                result,
                pieces_of(old(out)@),
                pieces_of(final(out)@),
                if id.0 >= cache.type_infos@.len() {
                    Err(Fault::UnknownType(id.0))
                } else {
                    Ok(blue(cache.type_infos@[id.0 as int].name@))
                },
            ),
    {
        if id.0 >= cache.type_infos.len() {
            return Err(Fault::UnknownType(id.0));
        }
        push_blue(out, cache.type_infos[id.0].name.as_str());
        Ok(())
    }

    /// Shows the arguments from position `at` on.
    pub fn fmt_arguments(&self, args: &Vec<Type>, at: usize, cache: &ModuleCache, out: &mut Vec<Span>, fuel: u32) -> (result:
        Result<(), Fault>)
        ensures
            writes(
                result,
                pieces_of(old(out)@),
                pieces_of(final(out)@),
                show_arguments(crate::types::terms_of(args@), at as nat, self.look(cache), fuel as nat),
            ),
        decreases fuel, 2nat, args@.len() - at,
    {
        let ghost before = pieces_of(out@);
        let ghost terms = crate::types::terms_of(args@);
        if at >= args.len() {
            assert(before + Seq::<Piece>::empty() =~= before);
            return Ok(());
        }
        assert(terms[at as int] == args@[at as int]@);
        push_plain(out, String::from_str(" "));
        match self.fmt_type(&args[at], cache, out, fuel) {
            Err(fault) => {
                return Err(fault);
            },
            Ok(()) => {},
        }
        let ghost middle = pieces_of(out@);
        match self.fmt_arguments(args, at + 1, cache, out, fuel) {
            Err(fault) => Err(fault),
            Ok(()) => {
                proof {
                    let first = show(terms[at as int], self.look(cache), fuel as nat)->Ok_0;
                    let rest = show_arguments(terms, (at + 1) as nat, self.look(cache), fuel as nat)->Ok_0;
                    assert(middle =~= before + plain(" "@) + first);
                    assert(middle + rest =~= before + (plain(" "@) + first + rest));
                }
                Ok(())
            },
        }
    }

    pub fn fmt_type_application(
        &self,
        constructor: &Type,
        args: &Vec<Type>,
        cache: &ModuleCache,
        out: &mut Vec<Span>,
        fuel: u32,
    ) -> (result: Result<(), Fault>)
        ensures
            ({
                let look = self.look(cache);
                let terms = crate::types::terms_of(args@);
                let inner = if is_pair_type(constructor@) {
                    show_pair(terms, look, fuel as nat)
                } else {
                    match (show(constructor@, look, fuel as nat), show_arguments(terms, 0, look, fuel as nat)) {
                        (Err(fault), _) => Err(fault),
                        (Ok(_), Err(fault)) => Err(fault),
                        (Ok(first), Ok(rest)) => Ok(first + rest),
                    }
                };
                let expected = match inner {
                    Err(fault) => Err(fault),
                    Ok(shown) => Ok(blue("("@) + shown + blue(")"@)),
                };
                writes(result, pieces_of(old(out)@), pieces_of(final(out)@), expected)
            }),
        decreases fuel, 3nat, 0nat,
    {
        let ghost before = pieces_of(out@);
        let ghost look = self.look(cache);
        let ghost terms = crate::types::terms_of(args@);
        push_blue(out, "(");
        let ghost opened = pieces_of(out@);
        let pair = match constructor {
            Type::UserDefined(id) => id.0 == PAIR_TYPE,
            _ => false,
        };
        assert(pair <==> is_pair_type(constructor@));
        if pair {
            match self.fmt_pair(args, cache, out, fuel) {
                Err(fault) => {
                    return Err(fault);
                },
                Ok(()) => {},
            }
        } else {
            match self.fmt_type(constructor, cache, out, fuel) {
                Err(fault) => {
                    return Err(fault);
                },
                Ok(()) => {},
            }
            let ghost middle = pieces_of(out@);
            match self.fmt_arguments(args, 0, cache, out, fuel) {
                Err(fault) => {
                    return Err(fault);
                },
                Ok(()) => {},
            }
            proof {
                let first = show(constructor@, look, fuel as nat)->Ok_0;
                let rest = show_arguments(terms, 0, look, fuel as nat)->Ok_0;
                assert(pieces_of(out@) =~= opened + (first + rest));
            }
        }
        let ghost inside = pieces_of(out@);
        push_blue(out, ")");
        proof {
            let shown = if pair {
                show_pair(terms, look, fuel as nat)->Ok_0
            } else {
                show(constructor@, look, fuel as nat)->Ok_0 + show_arguments(terms, 0, look, fuel as nat)->Ok_0
            };
            assert(inside == opened + shown);
            assert(pieces_of(out@) =~= before + (blue("("@) + shown + blue(")"@)));
        }
        Ok(())
    }

    pub fn fmt_pair(&self, args: &Vec<Type>, cache: &ModuleCache, out: &mut Vec<Span>, fuel: u32) -> (result: Result<
        (),
        Fault,
    >)
        ensures
            writes(
                result,
                pieces_of(old(out)@),
                pieces_of(final(out)@),
                show_pair(crate::types::terms_of(args@), self.look(cache), fuel as nat),
            ),
        decreases fuel, 0nat, 0nat,
    {
        let ghost before = pieces_of(out@);
        let ghost look = self.look(cache);
        let ghost terms = crate::types::terms_of(args@);
        if fuel == 0 {
            return Err(Fault::RecursionLimit);
        }
        if args.len() != 2 {
            return Err(Fault::Malformed);
        }
        assert(terms[0] == args@[0]@);
        assert(terms[1] == args@[1]@);
        let ghost second = match terms[1] {
            Term::TypeApplication(constructor, inner) => if is_pair_type(*constructor) {
                show_pair(inner, look, (fuel - 1) as nat)
            } else {
                show(terms[1], look, (fuel - 1) as nat)
            },
            _ => show(terms[1], look, (fuel - 1) as nat),
        };
        match self.fmt_type(&args[0], cache, out, fuel - 1) {
            Err(fault) => {
                return Err(fault);
            },
            Ok(()) => {},
        }
        // The second half is looked at before the comma is written, as a failure in it
        // is the failure of the whole.
        push_blue(out, ", ");
        let ghost middle = pieces_of(out@);
        let shown = match &args[1] {
            Type::TypeApplication(constructor, inner) => {
                assert(args@[1]@ == Term::TypeApplication(Box::new(constructor@), crate::types::terms_of(inner@)));
                let pair = match &**constructor {
                    Type::UserDefined(id) => id.0 == PAIR_TYPE,
                    _ => false,
                };
                assert(pair <==> is_pair_type(constructor@));
                if pair {
                    self.fmt_pair(inner, cache, out, fuel - 1)
                } else {
                    self.fmt_type(&args[1], cache, out, fuel - 1)
                }
            },
            other => self.fmt_type(other, cache, out, fuel - 1),
        };
        match shown {
            Err(fault) => Err(fault),
            Ok(()) => {
                proof {
                    let first = show(terms[0], look, (fuel - 1) as nat)->Ok_0;
                    let rest = second->Ok_0;
                    assert(middle =~= before + first + blue(", "@));
                    assert(middle + rest =~= before + (first + blue(", "@) + rest));
                }
                Ok(())
            },
        }
    }

    pub fn fmt_ref(&self, lifetime: TypeVariableId, cache: &ModuleCache, out: &mut Vec<Span>, fuel: u32) -> (result:
        Result<(), Fault>)
        ensures
            ({
                let look = self.look(cache);
                let expected = if lifetime >= look.store.len() {
                    Err(Fault::UnknownTypeVariable(lifetime))
                } else {
                    match look.store[lifetime as int] {
                        Binding::Bound(bound) => show(bound, look, fuel as nat),
                        Binding::Unbound(_, _) => Ok(
                            blue("ref"@) + (if !look.debug {
                                Seq::empty()
                            } else if look.names.contains_key(lifetime) {
                                plain("{"@ + look.names[lifetime] + "}"@)
                            } else {
                                plain("{?"@ + decimal(lifetime as nat) + "}"@)
                            }),
                        ),
                    }
                };
                writes(result, pieces_of(old(out)@), pieces_of(final(out)@), expected)
            }),
        decreases fuel, 3nat, 0nat,
    {
        let ghost before = pieces_of(out@);
        if lifetime >= cache.type_bindings.len() {
            return Err(Fault::UnknownTypeVariable(lifetime));
        }
        assert(cache.store()[lifetime as int] == cache.type_bindings@[lifetime as int]@);
        match &cache.type_bindings[lifetime] {
            TypeBinding::Bound(typ) => self.fmt_type(typ, cache, out, fuel),
            TypeBinding::Unbound(_, _) => {
                push_blue(out, "ref");
                if self.debug {
                    match self.typevar_names.get(&lifetime) {
                        Some(name) => {
                            let text = String::from_str("{").concat(name.as_str()).concat("}");
                            push_plain(out, text);
                        },
                        None => {
                            let number = decimal_text(lifetime as u64);
                            let text = String::from_str("{?").concat(number.as_str()).concat("}");
                            push_plain(out, text);
                        },
                    }
                } else {
                    assert(pieces_of(out@) + Seq::<Piece>::empty() =~= pieces_of(out@));
                }
                proof {
                    let more = if !self.debug {
                        Seq::<Piece>::empty()
                    } else if names_of(self.typevar_names@).contains_key(lifetime) {
                        plain("{"@ + names_of(self.typevar_names@)[lifetime] + "}"@)
                    } else {
                        plain("{?"@ + decimal(lifetime as nat) + "}"@)
                    };
                    assert(pieces_of(out@) =~= before + (blue("ref"@) + more));
                }
                Ok(())
            },
        }
    }

    /// Shows the quantified variables from position `at` on.
    pub fn fmt_quantified(&self, typevars: &Vec<TypeVariableId>, at: usize, cache: &ModuleCache, out: &mut Vec<Span>) -> (result:
        Result<(), Fault>)
        ensures
            writes(
                result,
                pieces_of(old(out)@),
                pieces_of(final(out)@),
                show_quantified(typevars@, at as nat, self.look(cache)),
            ),
        decreases typevars@.len() - at,
    {
        let ghost before = pieces_of(out@);
        if at >= typevars.len() {
            assert(before + Seq::<Piece>::empty() =~= before);
            return Ok(());
        }
        push_plain(out, String::from_str(" "));
        match self.fmt_type_variable(typevars[at], cache, out, RECURSION_LIMIT) {
            Err(fault) => {
                return Err(fault);
            },
            Ok(()) => {},
        }
        let ghost middle = pieces_of(out@);
        match self.fmt_quantified(typevars, at + 1, cache, out) {
            Err(fault) => Err(fault),
            Ok(()) => {
                proof {
                    let first = show_variable(typevars@[at as int], self.look(cache), RECURSION_LIMIT as nat)->Ok_0;
                    let rest = show_quantified(typevars@, (at + 1) as nat, self.look(cache))->Ok_0;
                    assert(middle =~= before + plain(" "@) + first);
                    assert(middle + rest =~= before + (plain(" "@) + first + rest));
                }
                Ok(())
            },
        }
    }

    pub fn fmt_forall(&self, typevars: &Vec<TypeVariableId>, typ: &Type, cache: &ModuleCache, out: &mut Vec<Span>) -> (result:
        Result<(), Fault>)
        ensures
            ({
                let look = self.look(cache);
                let expected = match (show_quantified(typevars@, 0, look), show(typ@, look, RECURSION_LIMIT as nat)) {
                    (Err(fault), _) => Err(fault),
                    (Ok(_), Err(fault)) => Err(fault),
                    (Ok(quantified), Ok(body)) => Ok(
                        blue("(forall"@) + quantified + blue(". "@) + body + blue(")"@),
                    ),
                };
                writes(result, pieces_of(old(out)@), pieces_of(final(out)@), expected)
            }),
    {
        let ghost before = pieces_of(out@);
        let ghost look = self.look(cache);
        push_blue(out, "(forall");
        match self.fmt_quantified(typevars, 0, cache, out) {
            Err(fault) => {
                return Err(fault);
            },
            Ok(()) => {},
        }
        push_blue(out, ". ");
        let ghost middle = pieces_of(out@);
        match self.fmt_type(typ, cache, out, RECURSION_LIMIT) {
            Err(fault) => {
                return Err(fault);
            },
            Ok(()) => {},
        }
        push_blue(out, ")");
        proof {
            let quantified = show_quantified(typevars@, 0, look)->Ok_0;
            let body = show(typ@, look, RECURSION_LIMIT as nat)->Ok_0;
            assert(middle =~= before + blue("(forall"@) + quantified + blue(". "@));
            assert(pieces_of(out@) =~= before + (blue("(forall"@) + quantified + blue(". "@) + body + blue(")"@)));
        }
        Ok(())
    }
}

} // verus!
