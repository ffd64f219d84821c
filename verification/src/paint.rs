//! Turning spans into text, with the blue ones coloured for the terminal, and the naming
//! of type variables for the reader.
use vstd::prelude::*;
use vstd::string::{StrSliceExecFns, StringExecFns};
use std::collections::HashMap;
use colored::Colorize;
use crate::cache::ModuleCache;
use crate::error::Fault;
use crate::generalize::{collects, find_all_typevars, free_variables};
use crate::infer_state::{decimal, decimal_text};
use crate::typeprinter::{names_of, pieces_of, show_scheme, Piece, Span, TypePrinter};
use crate::types::{GeneralizedType, Scheme, TypeVariableId};
use crate::unify::RECURSION_LIMIT;

verus! {

broadcast use vstd::std_specs::hash::group_hash_axioms;

/// The characters that switch a terminal to blue.
pub open spec fn blue_start() -> Seq<char> {
    seq!['\u{1b}', '[', '3', '4', 'm']
}

/// The characters that switch a terminal back to its own colours.
pub open spec fn reset() -> Seq<char> {
    seq!['\u{1b}', '[', '0', 'm']
}

/// Does the text itself hold the characters that switch the colours back?
pub open spec fn has_reset(text: Seq<char>) -> bool {
    exists|i: int| 0 <= i && i + 4 <= text.len() && #[trigger] text.subrange(i, i + 4) == reset()
}

/// May `painted` be what becomes of `text` when it is shown in blue? Where colours are
/// switched off, the text stays as it is. Where they are on, it stands between the two
/// switches. Where they are turned off while the text is put together, the first switch
/// may be missing. Of a text that holds a switch itself nothing is said.
pub open spec fn painted_blue(text: Seq<char>, painted: Seq<char>) -> bool {
    ||| painted == text
    ||| painted == blue_start() + text + reset()
    ||| painted == text + reset()
    ||| has_reset(text)
}

/// The text as `Colorize::blue` of the crate `colored` shows it, that is, what `Display`
/// writes for the `ColoredString` that `blue` returns.
///
/// What is taken on trust here is [`painted_blue`]: that crate writes the text as it is
/// where colours are off, and between the two switches where they are on. Whether they
/// are on depends on the environment and on the switch of that crate, which anyone may
/// turn at any time, also between the two looks that the crate takes at it: the contract
/// says what holds of every outcome.
#[verifier::external_body]
fn paint_blue(text: &str) -> (painted: String)
    ensures
        painted_blue(text@, painted@),
{
    format!("{}", text.blue())
}

/// The first `n` of the parts, one after the other.
pub open spec fn joined(parts: Seq<Seq<char>>, n: nat) -> Seq<char>
    decreases n,
{
    if n == 0 || n > parts.len() {
        Seq::empty()
    } else {
        joined(parts, (n - 1) as nat) + parts[n - 1]
    }
}

/// May `part` be what is shown for the piece?
pub open spec fn fits(piece: Piece, part: Seq<char>) -> bool {
    if piece.1 {
        painted_blue(piece.0, part)
    } else {
        part == piece.0
    }
}

/// May `text` be what is shown for the pieces: is it made of one part for each piece, in
/// order, each of which may be what is shown for its piece?
pub open spec fn shows(text: Seq<char>, pieces: Seq<Piece>) -> bool {
    exists|parts: Seq<Seq<char>>|
        parts.len() == pieces.len() && text == joined(parts, parts.len()) && forall|i: int|
            0 <= i < pieces.len() ==> fits(pieces[i], #[trigger] parts[i])
}

/// The texts of the pieces.
pub open spec fn texts(pieces: Seq<Piece>) -> Seq<Seq<char>> {
    Seq::new(pieces.len(), |i: int| pieces[i].0)
}

/// What was joined stays as it is when a part is added.
pub proof fn lemma_joined_push(parts: Seq<Seq<char>>, part: Seq<char>, n: nat)
    requires
        n <= parts.len(),
    ensures
        joined(parts.push(part), n) == joined(parts, n),
    decreases n,
{
    if n > 0 {
        lemma_joined_push(parts, part, (n - 1) as nat);
        assert(parts.push(part)[n - 1] == parts[n - 1]);
    }
}

/// The text without colours is one of the texts that may be shown.
pub proof fn lemma_plain_is_shown(pieces: Seq<Piece>)
    ensures
        shows(joined(texts(pieces), pieces.len()), pieces),
{
    let parts = texts(pieces);
    assert(parts.len() == pieces.len());
    assert forall|i: int| 0 <= i < pieces.len() implies fits(pieces[i], #[trigger] parts[i]) by {}
}

/// The text of the spans, with the blue ones coloured where colours are on.
pub fn render(spans: &Vec<Span>) -> (text: String)
    ensures
        shows(text@, pieces_of(spans@)),
{
    let ghost pieces = pieces_of(spans@);
    let mut text = String::from_str("");
    let ghost mut parts: Seq<Seq<char>> = Seq::empty();
    proof {
        reveal_strlit("");
        assert(text@ =~= joined(parts, 0));
    }
    let mut i: usize = 0;
    while i < spans.len()
        invariant
            i <= spans@.len(),
            pieces == pieces_of(spans@),
            parts.len() == i,
            text@ == joined(parts, i as nat),
            forall|j: int| 0 <= j < i ==> fits(pieces[j], #[trigger] parts[j]),
        decreases spans@.len() - i,
    {
        let ghost before = parts;
        if spans[i].blue {
            let painted = paint_blue(spans[i].text.as_str());
            text.append(painted.as_str());
            proof {
                parts = parts.push(painted@);
            }
        } else {
            text.append(spans[i].text.as_str());
            proof {
                parts = parts.push(spans@[i as int].text@);
            }
        }
        proof {
            lemma_joined_push(before, parts[i as int], i as nat);
            assert(pieces[i as int] == spans@[i as int]@);
            assert forall|j: int| 0 <= j < i + 1 implies fits(pieces[j], #[trigger] parts[j]) by {
                if j < i {
                    assert(parts[j] == before[j]);
                }
            }
        }
        i += 1;
    }
    text
}

/// The text of the spans without any colour.
pub fn plain_text(spans: &Vec<Span>) -> (text: String)
    ensures
        text@ == joined(texts(pieces_of(spans@)), spans@.len() as nat),
{
    let ghost parts = texts(pieces_of(spans@));
    let mut text = String::from_str("");
    proof {
        reveal_strlit("");
        assert(text@ =~= joined(parts, 0));
    }
    let mut i: usize = 0;
    while i < spans.len()
        invariant
            i <= spans@.len(),
            parts == texts(pieces_of(spans@)),
            text@ == joined(parts, i as nat),
        decreases spans@.len() - i,
    {
        text.append(spans[i].text.as_str());
        assert(parts[i as int] == spans@[i as int].text@);
        i += 1;
    }
    text
}

/// The letters that type variables are named with.
pub open spec fn letters() -> Seq<char> {
    "abcdefghijklmnopqrstuvwx"@
}

/// The names after each of the variables from position `at` on that has none yet got the
/// next free letter, where `next` letters are taken. There are no more letters after the
/// last of them.
pub open spec fn lettered(
    names: Map<TypeVariableId, Seq<char>>,
    variables: Seq<TypeVariableId>,
    at: nat,
    next: nat,
) -> Result<(Map<TypeVariableId, Seq<char>>, nat), Fault>
    decreases variables.len() - at,
{
    if at >= variables.len() {
        Ok((names, next))
    } else if names.contains_key(variables[at as int]) {
        lettered(names, variables, at + 1, next)
    } else if next >= letters().len() {
        Err(Fault::OutOfNames)
    } else {
        lettered(
            names.insert(variables[at as int], letters().subrange(next as int, next as int + 1)),
            variables,
            at + 1,
            next + 1,
        )
    }
}

/// The names after each of the variables from position `at` on that has none yet got its
/// number for a name.
pub open spec fn numbered(names: Map<TypeVariableId, Seq<char>>, variables: Seq<TypeVariableId>, at: nat) -> Map<
    TypeVariableId,
    Seq<char>,
>
    decreases variables.len() - at,
{
    if at >= variables.len() {
        names
    } else if names.contains_key(variables[at as int]) {
        numbered(names, variables, at + 1)
    } else {
        numbered(names.insert(variables[at as int], decimal(variables[at as int] as nat)), variables, at + 1)
    }
}

/// A name more is a name more in the model.
pub proof fn lemma_names_insert(names: Map<TypeVariableId, String>, id: TypeVariableId, name: String)
    ensures
        names_of(names.insert(id, name)) == names_of(names).insert(id, name@),
{
    assert(names_of(names.insert(id, name)) =~= names_of(names).insert(id, name@));
}

/// Fills the map with names that can be read for each of the variables: the letters in
/// order, from the letter with the number `current` on, which is counted up.
pub fn fill_typevar_map(map: &mut HashMap<TypeVariableId, String>, typevars: &Vec<TypeVariableId>, current: &mut usize) -> (result:
    Result<(), Fault>)
    ensures
        match lettered(names_of(old(map)@), typevars@, 0, *old(current) as nat) {
            Ok((names, next)) => result is Ok && names_of(final(map)@) == names && *final(current) == next,
            Err(fault) => result == Err::<(), Fault>(fault),
        },
{
    let ghost expected = lettered(names_of(map@), typevars@, 0, *current as nat);
    let mut i: usize = 0;
    while i < typevars.len()
        invariant
            i <= typevars@.len(),
            expected == lettered(names_of(old(map)@), typevars@, 0, *old(current) as nat),
            expected == lettered(names_of(map@), typevars@, i as nat, *current as nat),
        decreases typevars@.len() - i,
    {
        let typevar = typevars[i];
        if !map.contains_key(&typevar) {
            proof {
                reveal_strlit("abcdefghijklmnopqrstuvwx");
                assert(letters().len() == 24);
                assert(!names_of(map@).contains_key(typevars@[i as int]));
            }
            if *current >= 24 {
                return Err(Fault::OutOfNames);
            }
            let name = String::from_str("abcdefghijklmnopqrstuvwx".substring_char(*current, *current + 1));
            proof {
                lemma_names_insert(map@, typevar, name);
            }
            map.insert(typevar, name);
            *current = *current + 1;
        }
        i += 1;
    }
    Ok(())
}

/// The type variables that the type with its quantifiers holds: the quantified ones, and
/// then those that are found in the type.
pub open spec fn variables_of(scheme: Scheme, cache: &ModuleCache) -> Result<Seq<TypeVariableId>, Fault> {
    match scheme {
        Scheme::MonoType(t) => free_variables(t, false, cache.store(), cache.current_level, RECURSION_LIMIT as nat),
        Scheme::PolyType(quantified, t) => match free_variables(
            t,
            false,
            cache.store(),
            cache.current_level,
            RECURSION_LIMIT as nat,
        ) {
            Err(fault) => Err(fault),
            Ok(found) => Ok(quantified + found),
        },
    }
}

/// The type variables that the type with its quantifiers holds.
pub fn all_typevars(typ: &GeneralizedType, cache: &ModuleCache) -> (result: Result<Vec<TypeVariableId>, Fault>)
    ensures
        collects(result, variables_of(typ@, cache)),
{
    match typ {
        GeneralizedType::MonoType(t) => find_all_typevars(t, false, cache),
        GeneralizedType::PolyType(quantified, t) => {
            let mut found = match find_all_typevars(t, false, cache) {
                Err(fault) => {
                    return Err(fault);
                },
                Ok(found) => found,
            };
            let ghost inner = found@;
            let mut all = quantified.clone();
            all.append(&mut found);
            assert(all@ =~= quantified@ + inner);
            Ok(all)
        },
    }
}

impl TypePrinter {
    /// A printer that names each type variable by its number.
    pub fn debug_type(typ: GeneralizedType, cache: &ModuleCache) -> (result: Result<TypePrinter, Fault>)
        ensures
            match variables_of(typ@, cache) {
                Err(fault) => result matches Err(f) && f == fault,
                Ok(variables) => result matches Ok(printer) && printer.typ == typ && printer.debug && names_of(
                    printer.typevar_names@,
                ) == numbered(Map::empty(), variables, 0),
            },
    {
        let typevars = match all_typevars(&typ, cache) {
            Err(fault) => {
                return Err(fault);
            },
            Ok(typevars) => typevars,
        };
        let mut typevar_names: HashMap<TypeVariableId, String> = HashMap::new();
        assert(names_of(typevar_names@) =~= Map::<TypeVariableId, Seq<char>>::empty());
        let ghost expected = numbered(Map::empty(), typevars@, 0);
        let mut i: usize = 0;
        while i < typevars.len()
            invariant
                i <= typevars@.len(),
                expected == numbered(names_of(typevar_names@), typevars@, i as nat),
            decreases typevars@.len() - i,
        {
            let typevar = typevars[i];
            if !typevar_names.contains_key(&typevar) {
                let name = decimal_text(typevar as u64);
                proof {
                    lemma_names_insert(typevar_names@, typevar, name);
                }
                typevar_names.insert(typevar, name);
            }
            i += 1;
        }
        Ok(TypePrinter::new(typ, typevar_names, true))
    }

    /// A printer that names the type variables a, b, c and so on, in the order in which
    /// they are found.
    pub fn display_type(typ: GeneralizedType, cache: &ModuleCache) -> (result: Result<TypePrinter, Fault>)
        ensures
            match variables_of(typ@, cache) {
                Err(fault) => result matches Err(f) && f == fault,
                Ok(variables) => match lettered(Map::empty(), variables, 0, 0) {
                    Err(fault) => result matches Err(f) && f == fault,
                    Ok((names, _)) => result matches Ok(printer) && printer.typ == typ && printer.debug && names_of(
                        printer.typevar_names@,
                    ) == names,
                },
            },
    {
        let typevars = match all_typevars(&typ, cache) {
            Err(fault) => {
                return Err(fault);
            },
            Ok(typevars) => typevars,
        };
        let mut typevar_names: HashMap<TypeVariableId, String> = HashMap::new();
        assert(names_of(typevar_names@) =~= Map::<TypeVariableId, Seq<char>>::empty());
        let mut current: usize = 0;
        match fill_typevar_map(&mut typevar_names, &typevars, &mut current) {
            Err(fault) => Err(fault),
            Ok(()) => Ok(TypePrinter::new(typ, typevar_names, true)),
        }
    }

    /// The type as text, coloured where colours are on.
    pub fn display(&self, cache: &ModuleCache) -> (result: Result<String, Fault>)
        ensures
            match show_scheme(self.typ@, self.look(cache)) {
                Ok(pieces) => result matches Ok(text) && shows(text@, pieces),
                Err(fault) => result matches Err(f) && f == fault,
            },
    {
        match self.spans(cache) {
            Err(fault) => Err(fault),
            Ok(spans) => Ok(render(&spans)),
        }
    }

    /// The type as text without colours.
    pub fn plain(&self, cache: &ModuleCache) -> (result: Result<String, Fault>)
        ensures
            match show_scheme(self.typ@, self.look(cache)) {
                Ok(pieces) => result matches Ok(text) && text@ == joined(texts(pieces), pieces.len()),
                Err(fault) => result matches Err(f) && f == fault,
            },
    {
        match self.spans(cache) {
            Err(fault) => Err(fault),
            Ok(spans) => Ok(plain_text(&spans)),
        }
    }
}

} // verus!
