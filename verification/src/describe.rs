//! Showing a type together with the traits that its users are to have impls of, so that a
//! type variable that occurs in both has one name in both.
use vstd::prelude::*;
use vstd::string::{StrSliceExecFns, StringExecFns};
use std::collections::HashMap;
use crate::cache::ModuleCache;
use crate::error::Fault;
use crate::generalize::{collector, find_in_each};
use crate::paint::{all_typevars, fill_typevar_map, lettered, render, shows, variables_of};
use crate::sequence::try_flat_map;
use crate::traits::{required_of, Callsite, RequiredTrait, Signature};
use crate::typeprinter::{
    blue, names_of, pieces_of, push_blue, show_arguments, show_scheme, type_names, Look, Piece, Span,
    TypePrinter,
};
use crate::types::{terms_of, GeneralizedType, Scheme, Term, TraitInfoId, Type, TypeVariableId};
use crate::unify::RECURSION_LIMIT;

verus! {

/// Does the text `a` come before the text `b` in a dictionary, where they agree in their
/// first `i` characters? Characters are ordered by their numbers.
pub open spec fn precedes(a: Seq<char>, b: Seq<char>, i: nat) -> bool
    decreases b.len() - i,
{
    if i >= b.len() {
        false
    } else if i >= a.len() {
        true
    } else if a[i as int] != b[i as int] {
        (a[i as int] as u32) < (b[i as int] as u32)
    } else {
        precedes(a, b, i + 1)
    }
}

/// Does the text `a` come before the text `b` in a dictionary?
pub fn text_before(a: &str, b: &str) -> (before: bool)
    ensures
        before == precedes(a@, b@, 0),
{
    let a_len = a.unicode_len();
    let b_len = b.unicode_len();
    let mut i: usize = 0;
    loop
        invariant
            a_len == a@.len(),
            b_len == b@.len(),
            precedes(a@, b@, 0) == precedes(a@, b@, i as nat),
        decreases b_len - i,
    {
        if i >= b_len {
            return false;
        }
        if i >= a_len {
            return true;
        }
        let x = a.get_char(i);
        let y = b.get_char(i);
        if x != y {
            return (x as u32) < (y as u32);
        }
        i += 1;
    }
}

/// The texts of the strings, in order.
pub open spec fn lines_of(lines: Seq<String>) -> Seq<Seq<char>> {
    Seq::new(lines.len(), |i: int| lines[i]@)
}

/// The place of the text among the sorted ones from position `at` on: before the first
/// that it comes before.
pub open spec fn place_of(sorted: Seq<Seq<char>>, text: Seq<char>, at: nat) -> nat
    decreases sorted.len() - at,
{
    if at >= sorted.len() {
        sorted.len()
    } else if precedes(text, sorted[at as int], 0) {
        at
    } else {
        place_of(sorted, text, at + 1)
    }
}

/// The place is one of the list, or its end.
pub proof fn lemma_place_of(sorted: Seq<Seq<char>>, text: Seq<char>, at: nat)
    requires
        at <= sorted.len(),
    ensures
        at <= place_of(sorted, text, at) <= sorted.len(),
    decreases sorted.len() - at,
{
    if at < sorted.len() && !precedes(text, sorted[at as int], 0) {
        lemma_place_of(sorted, text, at + 1);
    }
}

/// The first `n` of the texts, in the order of the dictionary. Equal texts stay in the
/// order in which they came.
pub open spec fn in_order(lines: Seq<Seq<char>>, n: nat) -> Seq<Seq<char>>
    decreases n,
{
    if n == 0 || n > lines.len() {
        Seq::empty()
    } else {
        let before = in_order(lines, (n - 1) as nat);
        before.insert(place_of(before, lines[n - 1], 0) as int, lines[n - 1])
    }
}

/// There are as many texts in order as there were.
pub proof fn lemma_in_order_len(lines: Seq<Seq<char>>, n: nat)
    requires
        n <= lines.len(),
    ensures
        in_order(lines, n).len() == n,
    decreases n,
{
    if n > 0 {
        lemma_in_order_len(lines, (n - 1) as nat);
        lemma_place_of(in_order(lines, (n - 1) as nat), lines[n - 1], 0);
    }
}

/// The first `n` of the texts, without those that repeat the one before them.
pub open spec fn without_repeats(lines: Seq<Seq<char>>, n: nat) -> Seq<Seq<char>>
    decreases n,
{
    if n == 0 || n > lines.len() {
        Seq::empty()
    } else if n >= 2 && lines[n - 1] == lines[n - 2] {
        without_repeats(lines, (n - 1) as nat)
    } else {
        without_repeats(lines, (n - 1) as nat).push(lines[n - 1])
    }
}

/// The first `n` of the texts, one after the other, with the separator between them.
pub open spec fn joined_with(lines: Seq<Seq<char>>, separator: Seq<char>, n: nat) -> Seq<char>
    decreases n,
{
    if n == 0 || n > lines.len() {
        Seq::empty()
    } else if n == 1 {
        lines[0]
    } else {
        joined_with(lines, separator, (n - 1) as nat) + separator + lines[n - 1]
    }
}

/// What follows the type: the traits, in the order of the dictionary and each once, after
/// the word `given` on a line of its own, if there are any; and the end of the line.
pub open spec fn given_clause(lines: Seq<Seq<char>>) -> Seq<char> {
    let sorted = in_order(lines, lines.len());
    let traits = without_repeats(sorted, sorted.len());
    if traits.len() == 0 {
        "\n"@
    } else {
        "\n  given "@ + joined_with(traits, ", "@, traits.len()) + "\n"@
    }
}

/// The texts in the order of the dictionary.
pub fn sort_lines(lines: Vec<String>) -> (sorted: Vec<String>)
    ensures
        lines_of(sorted@) == in_order(lines_of(lines@), lines@.len() as nat),
{
    let ghost all = lines_of(lines@);
    let mut sorted: Vec<String> = Vec::new();
    assert(lines_of(sorted@) =~= in_order(all, 0));
    let mut n: usize = 0;
    while n < lines.len()
        invariant
            n <= lines@.len(),
            all == lines_of(lines@),
            lines_of(sorted@) == in_order(all, n as nat),
        decreases lines@.len() - n,
    {
        let ghost before = lines_of(sorted@);
        let mut at: usize = 0;
        while at < sorted.len() && !text_before(lines[n].as_str(), sorted[at].as_str())
            invariant
                at <= sorted@.len(),
                n < lines@.len(),
                before == lines_of(sorted@),
                place_of(before, lines@[n as int]@, 0) == place_of(before, lines@[n as int]@, at as nat),
            decreases sorted@.len() - at,
        {
            assert(before[at as int] == sorted@[at as int]@);
            at += 1;
        }
        proof {
            if at < sorted@.len() {
                assert(before[at as int] == sorted@[at as int]@);
            }
            assert(all[n as int] == lines@[n as int]@);
        }
        let line = lines[n].clone();
        sorted.insert(at, line);
        assert(lines_of(sorted@) =~= before.insert(at as int, all[n as int]));
        n += 1;
    }
    sorted
}

/// The texts without those that repeat the one before them.
pub fn without_repeated_lines(lines: &Vec<String>) -> (kept: Vec<String>)
    ensures
        lines_of(kept@) == without_repeats(lines_of(lines@), lines@.len() as nat),
{
    let ghost all = lines_of(lines@);
    let mut kept: Vec<String> = Vec::new();
    assert(lines_of(kept@) =~= without_repeats(all, 0));
    let mut n: usize = 0;
    while n < lines.len()
        invariant
            n <= lines@.len(),
            all == lines_of(lines@),
            lines_of(kept@) == without_repeats(all, n as nat),
        decreases lines@.len() - n,
    {
        assert(all[n as int] == lines@[n as int]@);
        let repeated = if n >= 1 {
            assert(all[n - 1] == lines@[n - 1]@);
            lines[n] == lines[n - 1]
        } else {
            false
        };
        if !repeated {
            let ghost before = lines_of(kept@);
            kept.push(lines[n].clone());
            assert(lines_of(kept@) =~= before.push(all[n as int]));
        }
        n += 1;
    }
    kept
}

/// The texts one after the other, with the separator between them.
pub fn join_with(lines: &Vec<String>, separator: &str) -> (text: String)
    ensures
        text@ == joined_with(lines_of(lines@), separator@, lines@.len() as nat),
{
    let ghost all = lines_of(lines@);
    let mut text = String::from_str("");
    proof {
        reveal_strlit("");
        assert(text@ =~= joined_with(all, separator@, 0));
    }
    let mut n: usize = 0;
    while n < lines.len()
        invariant
            n <= lines@.len(),
            all == lines_of(lines@),
            text@ == joined_with(all, separator@, n as nat),
        decreases lines@.len() - n,
    {
        assert(all[n as int] == lines@[n as int]@);
        if n > 0 {
            text.append(separator);
        } else {
            assert(text@ + all[0] =~= all[0]);
        }
        text.append(lines[n].as_str());
        n += 1;
    }
    text
}

/// What follows the type, for the traits as they are shown.
pub fn given_text(lines: Vec<String>) -> (text: String)
    ensures
        text@ == given_clause(lines_of(lines@)),
{
    let sorted = sort_lines(lines);
    proof {
        lemma_in_order_len(lines_of(lines@), lines@.len() as nat);
    }
    let traits = without_repeated_lines(&sorted);
    if traits.len() == 0 {
        String::from_str("\n")
    } else {
        String::from_str("\n  given ").concat(join_with(&traits, ", ").as_str()).concat("\n")
    }
}

/// What is shown of the trait applied to the types, with the names; and the names after
/// each type variable of the types that had none was given the next free letter.
pub open spec fn signature_shown(
    trait_id: TraitInfoId,
    args: Seq<Term>,
    names: Map<TypeVariableId, Seq<char>>,
    next: nat,
    cache: &ModuleCache,
) -> Result<(Seq<Piece>, Map<TypeVariableId, Seq<char>>, nat), Fault> {
    match try_flat_map(args, collector(false, cache.store(), cache.current_level, RECURSION_LIMIT as nat)) {
        Err(fault) => Err(fault),
        Ok(variables) => match lettered(names, variables, 0, next) {
            Err(fault) => Err(fault),
            Ok((named, after)) => if trait_id.0 >= cache.trait_infos@.len() {
                Err(Fault::UnknownDefinition(trait_id.0))
            } else {
                match show_arguments(
                    args,
                    0,
                    Look { names: named, debug: true, store: cache.store(), types: type_names(cache) },
                    RECURSION_LIMIT as nat,
                ) {
                    Err(fault) => Err(fault),
                    Ok(shown) => Ok((blue(cache.trait_infos@[trait_id.0 as int].name@) + shown, named, after)),
                }
            },
        },
    }
}

/// What is shown of each of the traits from position `at` on, and the names after the
/// last.
pub open spec fn traits_shown(
    traits: Seq<(Signature, Callsite)>,
    at: nat,
    names: Map<TypeVariableId, Seq<char>>,
    next: nat,
    cache: &ModuleCache,
) -> Result<(Seq<Seq<Piece>>, Map<TypeVariableId, Seq<char>>, nat), Fault>
    decreases traits.len() - at,
{
    if at >= traits.len() {
        Ok((Seq::empty(), names, next))
    } else {
        match signature_shown(traits[at as int].0.trait_id, traits[at as int].0.args, names, next, cache) {
            Err(fault) => Err(fault),
            Ok((first, named, after)) => match traits_shown(traits, at + 1, named, after, cache) {
                Err(fault) => Err(fault),
                Ok((rest, last, end)) => Ok((seq![first] + rest, last, end)),
            },
        }
    }
}

/// What is shown of a type and of the traits that are required with it: the type, with
/// its type variables named by letters; then each trait, and last the trait that the type
/// is declared in, if it is declared in one. A type variable keeps its name from the type
/// to the traits.
pub open spec fn described(
    scheme: Scheme,
    traits: Seq<(Signature, Callsite)>,
    trait_info: Option<(TraitInfoId, Seq<Term>)>,
    cache: &ModuleCache,
) -> Result<(Seq<Piece>, Seq<Seq<Piece>>), Fault> {
    match variables_of(scheme, cache) {
        Err(fault) => Err(fault),
        Ok(variables) => match lettered(Map::empty(), variables, 0, 0) {
            Err(fault) => Err(fault),
            Ok((names, next)) => match show_scheme(
                scheme,
                Look { names, debug: true, store: cache.store(), types: type_names(cache) },
            ) {
                Err(fault) => Err(fault),
                Ok(shown) => match traits_shown(traits, 0, names, next, cache) {
                    Err(fault) => Err(fault),
                    Ok((lines, named, after)) => match trait_info {
                        None => Ok((shown, lines)),
                        Some((trait_id, args)) => match signature_shown(trait_id, args, named, after, cache) {
                            Err(fault) => Err(fault),
                            Ok((last, _, _)) => Ok((shown, lines.push(last))),
                        },
                    },
                },
            },
        },
    }
}

/// The models of the lists of spans, in order.
pub open spec fn lines_pieces(lines: Seq<Vec<Span>>) -> Seq<Seq<Piece>> {
    Seq::new(lines.len(), |i: int| pieces_of(lines[i]@))
}

/// The spans that show the trait applied to the types. The type variables of the types
/// that have no name yet are named first.
pub fn describe_signature(
    printer: &mut TypePrinter,
    trait_id: TraitInfoId,
    args: &Vec<Type>,
    current: &mut usize,
    cache: &ModuleCache,
) -> (result: Result<Vec<Span>, Fault>)
    requires
        old(printer).debug,
    ensures
        final(printer).debug,
        final(printer).typ == old(printer).typ,
        match signature_shown(
            trait_id,
            terms_of(args@),
            names_of(old(printer).typevar_names@),
            *old(current) as nat,
            cache,
        ) {
            Err(fault) => result matches Err(f) && f == fault,
            Ok((shown, names, next)) => result matches Ok(spans) && pieces_of(spans@) == shown && names_of(
                final(printer).typevar_names@,
            ) == names && *final(current) == next,
        },
{
    let typevars = match find_in_each(args, false, cache, RECURSION_LIMIT) {
        Err(fault) => {
            return Err(fault);
        },
        Ok(typevars) => typevars,
    };
    match fill_typevar_map(&mut printer.typevar_names, &typevars, current) {
        Err(fault) => {
            return Err(fault);
        },
        Ok(()) => {},
    }
    if trait_id.0 >= cache.trait_infos.len() {
        return Err(Fault::UnknownDefinition(trait_id.0));
    }
    let mut out: Vec<Span> = Vec::new();
    assert(pieces_of(out@) =~= Seq::<Piece>::empty());
    push_blue(&mut out, cache.trait_infos[trait_id.0].name.as_str());
    let ghost name = pieces_of(out@);
    assert(name =~= blue(cache.trait_infos@[trait_id.0 as int].name@));
    match printer.fmt_arguments(args, 0, cache, &mut out, RECURSION_LIMIT) {
        Err(fault) => Err(fault),
        Ok(()) => Ok(out),
    }
}

/// The spans that show each of the traits from position `at` on, added to `lines`.
pub fn describe_traits(
    printer: &mut TypePrinter,
    traits: &Vec<RequiredTrait>,
    at: usize,
    current: &mut usize,
    lines: &mut Vec<Vec<Span>>,
    cache: &ModuleCache,
) -> (result: Result<(), Fault>)
    requires
        old(printer).debug,
    ensures
        final(printer).debug,
        final(printer).typ == old(printer).typ,
        match traits_shown(
            required_of(traits@),
            at as nat,
            names_of(old(printer).typevar_names@),
            *old(current) as nat,
            cache,
        ) {
            Err(fault) => result == Err::<(), Fault>(fault),
            Ok((shown, names, next)) => result is Ok && lines_pieces(final(lines)@) == lines_pieces(old(lines)@)
                + shown && names_of(final(printer).typevar_names@) == names && *final(current) == next,
        },
    decreases traits@.len() - at,
{
    let ghost before = lines_pieces(lines@);
    if at >= traits.len() {
        assert(before + Seq::<Seq<Piece>>::empty() =~= before);
        return Ok(());
    }
    assert(required_of(traits@)[at as int].0 == traits@[at as int].signature@);
    let first = match describe_signature(
        printer,
        traits[at].signature.trait_id,
        &traits[at].signature.args,
        current,
        cache,
    ) {
        Err(fault) => {
            return Err(fault);
        },
        Ok(first) => first,
    };
    let ghost shown = pieces_of(first@);
    lines.push(first);
    assert(lines_pieces(lines@) =~= before.push(shown));
    let ghost names = names_of(printer.typevar_names@);
    let ghost next = *current as nat;
    match describe_traits(printer, traits, at + 1, current, lines, cache) {
        Err(fault) => Err(fault),
        Ok(()) => {
            proof {
                let rest = traits_shown(required_of(traits@), (at + 1) as nat, names, next, cache)->Ok_0.0;
                assert(before.push(shown) + rest =~= before + (seq![shown] + rest));
            }
            Ok(())
        },
    }
}

/// The spans that show the type, and those that show each of the traits that are
/// required with it, the trait that the type is declared in last.
pub fn describe_type_and_traits(
    typ: &GeneralizedType,
    traits: &Vec<RequiredTrait>,
    trait_info: &Option<(TraitInfoId, Vec<Type>)>,
    cache: &ModuleCache,
) -> (result: Result<(Vec<Span>, Vec<Vec<Span>>), Fault>)
    ensures
        match described(typ@, required_of(traits@), crate::constraints::trait_info_of(*trait_info), cache) {
            Err(fault) => result matches Err(f) && f == fault,
            Ok((shown, lines)) => result matches Ok((spans, more)) && pieces_of(spans@) == shown && lines_pieces(
                more@,
            ) == lines,
        },
{
    let typevars = match all_typevars(typ, cache) {
        Err(fault) => {
            return Err(fault);
        },
        Ok(typevars) => typevars,
    };
    let mut map: HashMap<TypeVariableId, String> = HashMap::new();
    assert(names_of(map@) =~= Map::<TypeVariableId, Seq<char>>::empty());
    let mut current: usize = 0;
    match fill_typevar_map(&mut map, &typevars, &mut current) {
        Err(fault) => {
            return Err(fault);
        },
        Ok(()) => {},
    }
    let mut printer = TypePrinter::new(typ.clone(), map, true);
    let spans = match printer.spans(cache) {
        Err(fault) => {
            return Err(fault);
        },
        Ok(spans) => spans,
    };
    let mut lines: Vec<Vec<Span>> = Vec::new();
    assert(lines_pieces(lines@) =~= Seq::<Seq<Piece>>::empty());
    match describe_traits(&mut printer, traits, 0, &mut current, &mut lines, cache) {
        Err(fault) => {
            return Err(fault);
        },
        Ok(()) => {},
    }
    proof {
        let shown = traits_shown(
            required_of(traits@),
            0,
            names_of(map@),
            current as nat,
            cache,
        );
        assert(Seq::<Seq<Piece>>::empty() + lines_pieces(lines@) =~= lines_pieces(lines@));
    }
    // If this is a function of a trait, the trait it comes from is added by hand
    match trait_info {
        None => {},
        Some((trait_id, args)) => {
            let last = match describe_signature(&mut printer, *trait_id, args, &mut current, cache) {
                Err(fault) => {
                    return Err(fault);
                },
                Ok(last) => last,
            };
            let ghost before = lines_pieces(lines@);
            let ghost shown = pieces_of(last@);
            lines.push(last);
            assert(lines_pieces(lines@) =~= before.push(shown));
        },
    }
    Ok((spans, lines))
}

/// May the texts be what is shown for the lists of pieces, each for the one in its
/// position?
pub open spec fn show_each(texts: Seq<Seq<char>>, lines: Seq<Seq<Piece>>) -> bool {
    texts.len() == lines.len() && forall|i: int| 0 <= i < lines.len() ==> shows(#[trigger] texts[i], lines[i])
}

/// The text of each list of spans.
pub fn render_each(lines: &Vec<Vec<Span>>) -> (texts: Vec<String>)
    ensures
        show_each(lines_of(texts@), lines_pieces(lines@)),
{
    let mut texts: Vec<String> = Vec::new();
    let mut i: usize = 0;
    while i < lines.len()
        invariant
            i <= lines@.len(),
            texts@.len() == i,
            forall|j: int| 0 <= j < i ==> shows((#[trigger] texts@[j])@, pieces_of(lines@[j]@)),
        decreases lines@.len() - i,
    {
        texts.push(render(&lines[i]));
        i += 1;
    }
    assert forall|j: int| 0 <= j < lines@.len() implies shows(
        #[trigger] lines_of(texts@)[j],
        lines_pieces(lines@)[j],
    ) by {
        assert(lines_of(texts@)[j] == texts@[j]@);
    }
    texts
}

/// The text that shows the given type and traits. The type and the traits are all taken
/// in together so that a type variable that is used in both the type and a trait is
/// given the same name in both. The traits follow the type in the order of the
/// dictionary, each once: two traits may differ only in where they are used, which is not
/// shown.
pub fn show_type_and_traits(
    typ: &GeneralizedType,
    traits: &Vec<RequiredTrait>,
    trait_info: &Option<(TraitInfoId, Vec<Type>)>,
    cache: &ModuleCache,
) -> (result: Result<String, Fault>)
    ensures
        match described(typ@, required_of(traits@), crate::constraints::trait_info_of(*trait_info), cache) {
            Err(fault) => result matches Err(f) && f == fault,
            Ok((shown, lines)) => result matches Ok(text) && exists|first: Seq<char>, texts: Seq<Seq<char>>|
                shows(first, shown) && show_each(texts, lines) && text@ == first + given_clause(texts),
        },
{
    let (spans, lines) = match describe_type_and_traits(typ, traits, trait_info, cache) {
        Err(fault) => {
            return Err(fault);
        },
        Ok(described) => described,
    };
    let first = render(&spans);
    let texts = render_each(&lines);
    let ghost shown_texts = lines_of(texts@);
    let clause = given_text(texts);
    let ghost shown_first = first@;
    let text = first.concat(clause.as_str());
    assert(shows(shown_first, pieces_of(spans@)) && show_each(shown_texts, lines_pieces(lines@)) && text@
        == shown_first + given_clause(shown_texts));
    Ok(text)
}

} // verus!
