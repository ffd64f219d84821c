//! The encoding of sum types for the solver: a datatype with a constructor for each
//! variant, a constant for each field of each variant, and for the definition of each
//! variant what is known of its constructor.
use vstd::prelude::*;
use vstd::string::StringExecFns;
use unzip3::Unzip3;
use crate::cache::{ModuleCache, TypeConstructor, Variant};
use crate::error::Fault;
use crate::infer_state::{decimal, decimal_text};
use crate::refine::{
    constructors_of, sort_of, with_term, Accessor, Constructor, ConstructorModel, Datatype, DatatypeModel,
    Encoded, Encoding, RefinementContext, Sort, SortModel,
};
use crate::refine_terms::{
    copy_list, with_definition, Callee, CalleeModel, RefinementValueModel, Refinements, RefinementsModel,
    SolverTerm, SolverTermModel, TableModel, TermId,
};
use crate::types::{terms_of, DefinitionInfoId};

verus! {

/// A field of a variant: its sort, its name, and the constant that stands for it.
pub type Field = (SortModel, Seq<char>, TermId);

/// The models of the fields, in order.
pub open spec fn fields_of(fields: Seq<(Sort, String, TermId)>) -> Seq<Field> {
    Seq::new(fields.len(), |i: int| (fields[i].0@, fields[i].1@, fields[i].2))
}

/// The definition of a variant, with the constants that stand for its fields.
pub type Owner = (DefinitionInfoId, Seq<TermId>);

/// The models of the owners, in order.
pub open spec fn owners_of(owners: Seq<(DefinitionInfoId, Vec<TermId>)>) -> Seq<Owner> {
    Seq::new(owners.len(), |i: int| (owners[i].0, owners[i].1@))
}

/// The three lists that `Unzip3::unzip3` of the crate `unzip3` makes of a list of triples:
/// the first parts, the second parts and the third parts, each in the order of the
/// triples.
///
/// What is taken on trust here is that it puts the parts of each triple it meets at the
/// end of the three lists, which are empty at the start, and that it meets the triples in
/// their order.
#[verifier::external_body]
fn unzip_triples<A, B, C>(triples: Vec<(A, B, C)>) -> (lists: (Vec<A>, Vec<B>, Vec<C>))
    ensures
        lists.0@.len() == triples@.len(),
        lists.1@.len() == triples@.len(),
        lists.2@.len() == triples@.len(),
        forall|i: int|
            0 <= i < triples@.len() ==> lists.0@[i] == (#[trigger] triples@[i]).0 && lists.1@[i] == triples@[i].1
                && lists.2@[i] == triples@[i].2,
{
    triples.into_iter().unzip3()
}

/// The name of the field with the number of the variant of the type.
pub open spec fn field_name(typename: Seq<char>, variant: Seq<char>, number: nat) -> Seq<char> {
    typename + "$"@ + variant + "$"@ + decimal(number)
}

/// The fields of a variant from position `at` on, and what is declared after: the type of
/// each is encoded, and a constant of its name and its sort is made for it.
pub open spec fn variant_fields(
    typename: Seq<char>,
    variant: Variant,
    at: nat,
    e: Encoding,
    cache: &ModuleCache,
    fuel: nat,
) -> Encoded<Seq<Field>>
    decreases fuel, 1nat, variant.args.len() - at,
{
    if at >= variant.args.len() {
        (Ok(Seq::empty()), e)
    } else {
        let (encoded, e1) = sort_of(variant.args[at as int], e, cache, fuel);
        match encoded {
            Err(fault) => (Err(fault), e),
            Ok(sort) => {
                let name = field_name(typename, variant.name, at);
                let constant = TermId(e1.table.terms.len() as usize);
                let (rest, e2) = variant_fields(
                    typename,
                    variant,
                    at + 1,
                    with_term(e1, SolverTermModel::Constant(name, sort)),
                    cache,
                    fuel,
                );
                match rest {
                    Err(fault) => (Err(fault), e),
                    Ok(fields) => (Ok(seq![(sort, name, constant)] + fields), e2),
                }
            },
        }
    }
}

/// The accessors of a constructor with the fields.
pub open spec fn accessors(fields: Seq<Field>) -> Seq<(Seq<char>, SortModel)> {
    Seq::new(fields.len(), |i: int| (fields[i].1, fields[i].0))
}

/// The constants that stand for the fields.
pub open spec fn constants(fields: Seq<Field>) -> Seq<TermId> {
    Seq::new(fields.len(), |i: int| fields[i].2)
}

/// The constructors of a sum type for its variants from position `at` on, each named by
/// the type, the variant and the definition that builds the variant; with them, the
/// definition of each variant and the constants of its fields.
pub open spec fn sum_constructors(
    typename: Seq<char>,
    variants: Seq<Variant>,
    at: nat,
    e: Encoding,
    cache: &ModuleCache,
    fuel: nat,
) -> Encoded<(Seq<ConstructorModel>, Seq<Owner>)>
    decreases fuel, 2nat, variants.len() - at,
{
    if at >= variants.len() {
        (Ok((Seq::empty(), Seq::empty())), e)
    } else {
        let variant = variants[at as int];
        let (made, e1) = variant_fields(typename, variant, 0, e, cache, fuel);
        match made {
            Err(fault) => (Err(fault), e),
            Ok(fields) => {
                let (rest, e2) = sum_constructors(typename, variants, at + 1, e1, cache, fuel);
                match rest {
                    Err(fault) => (Err(fault), e),
                    Ok((others, owners)) => (
                        Ok(
                            (
                                seq![
                                    ConstructorModel {
                                        name: typename + "$"@ + variant.name + "$"@ + decimal(variant.id.0 as nat),
                                        fields: accessors(fields),
                                    },
                                ] + others,
                                seq![(variant.id, constants(fields))] + owners,
                            ),
                        ),
                        e2,
                    ),
                }
            },
        }
    }
}

/// What is known of a constructor that takes the parameters, and the table after: one that
/// takes none is the value that it builds, and any other is a function.
pub open spec fn constructor_value(table: TableModel, callee: CalleeModel, parameters: Seq<TermId>, sort: SortModel) -> (
    RefinementsModel,
    TableModel,
) {
    if parameters.len() == 0 {
        (
            RefinementsModel {
                value: RefinementValueModel::Pure(TermId(table.terms.len() as usize)),
                asserts: Seq::empty(),
                bindings: Seq::empty(),
            },
            TableModel { terms: table.terms.push(SolverTermModel::Apply(callee, Seq::empty(), sort)), ..table },
        )
    } else {
        (
            RefinementsModel {
                value: RefinementValueModel::Function(callee, parameters),
                asserts: Seq::empty(),
                bindings: Seq::empty(),
            },
            table,
        )
    }
}

/// The table after the definition of each variant from position `at` on that nothing is
/// known of yet was made to stand for the constructor of the variant.
pub open spec fn constructors_defined(table: TableModel, typename: Seq<char>, owners: Seq<Owner>, at: nat) -> TableModel
    decreases owners.len() - at,
{
    if at >= owners.len() {
        table
    } else {
        let (value, made) = constructor_value(
            table,
            CalleeModel::Constructor(typename, at as usize),
            owners[at as int].1,
            SortModel::Datatype(typename),
        );
        constructors_defined(with_definition(made, owners[at as int].0, value), typename, owners, at + 1)
    }
}

impl RefinementContext {
    /// What is known of a constructor that takes the parameters.
    pub fn get_constructor_value(&mut self, constructor: Callee, parameters: Vec<TermId>, sort: Sort) -> (r:
        Refinements)
        ensures
            ({
                let (value, table) = constructor_value(old(self)@.table, constructor@, parameters@, sort@);
                r@ == value && final(self)@ == (Encoding { table, ..old(self)@ })
            }),
    {
        if parameters.len() == 0 {
            assert(parameters@ =~= Seq::<TermId>::empty());
            let term = self.table.push_term(SolverTerm::Apply(constructor, parameters, sort));
            proof {
                assert(self@.types =~= old(self)@.types);
                assert(self@.datatypes =~= old(self)@.datatypes);
            }
            Refinements::from_value(term)
        } else {
            proof {
                assert(self@.types =~= old(self)@.types);
                assert(self@.datatypes =~= old(self)@.datatypes);
            }
            Refinements::function(constructor, parameters)
        }
    }

    /// Encodes the types of the fields of a variant from position `at` on, makes a
    /// constant for each, and adds them to `fields`.
    pub fn fields_of_variant(
        &mut self,
        typename: &String,
        variant: &TypeConstructor,
        at: usize,
        fields: &mut Vec<(Sort, String, TermId)>,
        cache: &ModuleCache,
        fuel: u32,
    ) -> (result: Result<(), Fault>)
        ensures
            ({
                let expected = variant_fields(typename@, variant@, at as nat, old(self)@, cache, fuel as nat);
                match expected.0 {
                    Ok(found) => result is Ok && fields_of(final(fields)@) == fields_of(old(fields)@) + found
                        && final(self)@ == expected.1,
                    Err(fault) => result == Err::<(), Fault>(fault),
                }
            }),
        decreases fuel, 1nat, variant.args@.len() - at,
    {
        let ghost before = fields_of(fields@);
        if at >= variant.args.len() {
            assert(before + Seq::<Field>::empty() =~= before);
            return Ok(());
        }
        assert(terms_of(variant.args@)[at as int] == variant.args@[at as int]@);
        let sort = match self.type_to_sort(&variant.args[at], cache, fuel) {
            Err(fault) => {
                return Err(fault);
            },
            Ok(sort) => sort,
        };
        let name = typename.clone().concat("$").concat(variant.name.as_str()).concat("$").concat(
            decimal_text(at as u64).as_str(),
        );
        let ghost first = (sort@, name@, TermId(self@.table.terms.len() as usize));
        let constant = self.variable(name.as_str(), sort.clone());
        fields.push((sort, name, constant));
        assert(fields_of(fields@) =~= before.push(first));
        let ghost e1 = self@;
        match self.fields_of_variant(typename, variant, at + 1, fields, cache, fuel) {
            Err(fault) => Err(fault),
            Ok(()) => {
                proof {
                    let rest = variant_fields(typename@, variant@, (at + 1) as nat, e1, cache, fuel as nat).0->Ok_0;
                    assert(before.push(first) + rest =~= before + (seq![first] + rest));
                }
                Ok(())
            },
        }
    }

    /// Makes the constructors of the variants of a sum type from position `at` on, and
    /// adds them to `constructors`, and the definitions of the variants with the constants
    /// of their fields to `owners`.
    pub fn variants_to_constructors(
        &mut self,
        typename: &String,
        variants: &Vec<TypeConstructor>,
        at: usize,
        constructors: &mut Vec<Constructor>,
        owners: &mut Vec<(DefinitionInfoId, Vec<TermId>)>,
        cache: &ModuleCache,
        fuel: u32,
    ) -> (result: Result<(), Fault>)
        ensures
            ({
                let expected = sum_constructors(
                    typename@,
                    Seq::new(variants@.len(), |i: int| variants@[i]@),
                    at as nat,
                    old(self)@,
                    cache,
                    fuel as nat,
                );
                match expected.0 {
                    Ok((found, owned)) => result is Ok && constructors_of(final(constructors)@) == constructors_of(
                        old(constructors)@,
                    ) + found && owners_of(final(owners)@) == owners_of(old(owners)@) + owned && final(self)@
                        == expected.1,
                    Err(fault) => result == Err::<(), Fault>(fault),
                }
            }),
        decreases fuel, 2nat, variants@.len() - at,
    {
        let ghost before = constructors_of(constructors@);
        let ghost owned_before = owners_of(owners@);
        let ghost all = Seq::new(variants@.len(), |i: int| variants@[i]@);
        if at >= variants.len() {
            assert(before + Seq::<ConstructorModel>::empty() =~= before);
            assert(owned_before + Seq::<Owner>::empty() =~= owned_before);
            return Ok(());
        }
        let variant = &variants[at];
        assert(all[at as int] == variant@);
        let mut triples: Vec<(Sort, String, TermId)> = Vec::new();
        assert(fields_of(triples@) =~= Seq::<Field>::empty());
        match self.fields_of_variant(typename, variant, 0, &mut triples, cache, fuel) {
            Err(fault) => {
                return Err(fault);
            },
            Ok(()) => {},
        }
        let ghost found = variant_fields(typename@, variant@, 0, old(self)@, cache, fuel as nat).0->Ok_0;
        assert(Seq::<Field>::empty() + found =~= found);
        let ghost made = triples@;
        let (fields, field_names, field_vars) = unzip_triples(triples);
        let mut named: Vec<Accessor> = Vec::new();
        let mut i: usize = 0;
        while i < fields.len()
            invariant
                i <= fields@.len(),
                fields@.len() == made.len(),
                field_names@.len() == made.len(),
                forall|j: int|
                    0 <= j < made.len() ==> fields@[j] == (#[trigger] made[j]).0 && field_names@[j] == made[j].1,
                named@.len() == i,
                forall|j: int|
                    0 <= j < i ==> (#[trigger] named@[j]).name@ == made[j].1@ && named@[j].sort@ == made[j].0@,
            decreases fields@.len() - i,
        {
            assert(fields@[i as int] == made[i as int].0 && field_names@[i as int] == made[i as int].1);
            named.push(Accessor { name: field_names[i].clone(), sort: fields[i].clone() });
            i += 1;
        }
        let name = typename.clone().concat("$").concat(variant.name.as_str()).concat("$").concat(
            decimal_text(variant.id.0 as u64).as_str(),
        );
        let constructor = Constructor { name, fields: named };
        let ghost first = constructor@;
        proof {
            assert forall|j: int| 0 <= j < made.len() implies fields_of(made)[j] == (
                made[j].0@,
                made[j].1@,
                made[j].2,
            ) by {}
            assert(first.fields =~= accessors(found));
            assert forall|j: int| 0 <= j < made.len() implies field_vars@[j] == constants(found)[j] by {
                assert(field_vars@[j] == made[j].2);
                assert(found[j] == fields_of(made)[j]);
            }
            assert(field_vars@ =~= constants(found));
        }
        constructors.push(constructor);
        assert(constructors_of(constructors@) =~= before.push(first));
        let ghost owner = (variant.id, field_vars@);
        owners.push((variant.id, field_vars));
        assert(owners_of(owners@) =~= owned_before.push(owner));
        let ghost e1 = self@;
        match self.variants_to_constructors(typename, variants, at + 1, constructors, owners, cache, fuel) {
            Err(fault) => Err(fault),
            Ok(()) => {
                proof {
                    let rest = sum_constructors(typename@, all, (at + 1) as nat, e1, cache, fuel as nat).0->Ok_0;
                    assert(before.push(first) + rest.0 =~= before + (seq![first] + rest.0));
                    assert(owned_before.push(owner) + rest.1 =~= owned_before + (seq![owner] + rest.1));
                }
                Ok(())
            },
        }
    }

    /// Makes the definition of each variant from position `at` on stand for the
    /// constructor of the variant, unless something is known of it already.
    pub fn define_constructors(&mut self, typename: &String, owners: &Vec<(DefinitionInfoId, Vec<TermId>)>, at: usize)
        ensures
            final(self)@ == (Encoding {
                table: constructors_defined(old(self)@.table, typename@, owners_of(owners@), at as nat),
                ..old(self)@
            }),
        decreases owners@.len() - at,
    {
        if at >= owners.len() {
            proof {
                assert(self@.types =~= old(self)@.types);
                assert(self@.datatypes =~= old(self)@.datatypes);
            }
            return ;
        }
        assert(owners_of(owners@)[at as int] == (owners@[at as int].0, owners@[at as int].1@));
        let value = self.get_constructor_value(
            Callee::Constructor(typename.clone(), at),
            copy_list(&owners[at].1),
            Sort::Datatype(typename.clone()),
        );
        self.table.add_definition(owners[at].0, value);
        proof {
            assert(self@.types =~= old(self)@.types);
            assert(self@.datatypes =~= old(self)@.datatypes);
        }
        self.define_constructors(typename, owners, at + 1)
    }

    /// Declares the datatype of a sum type, and makes the definition of each variant
    /// stand for its constructor.
    pub fn sum_type_to_sort(&mut self, typename: &String, variants: &Vec<TypeConstructor>, cache: &ModuleCache, fuel: u32) -> (result:
        Result<Sort, Fault>)
        ensures
            ({
                let all = Seq::new(variants@.len(), |i: int| variants@[i]@);
                let (made, e1) = sum_constructors(typename@, all, 0, old(self)@, cache, fuel as nat);
                match made {
                    Err(fault) => result matches Err(f) && f == fault,
                    Ok((constructors, owners)) => result matches Ok(sort) && sort@ == SortModel::Datatype(typename@)
                        && final(self)@ == (Encoding {
                        datatypes: e1.datatypes.push(DatatypeModel { name: typename@, constructors }),
                        table: constructors_defined(e1.table, typename@, owners, 0),
                        ..e1
                    }),
                }
            }),
        decreases fuel, 3nat, 0nat,
    {
        let mut constructors: Vec<Constructor> = Vec::new();
        let mut owners: Vec<(DefinitionInfoId, Vec<TermId>)> = Vec::new();
        assert(constructors_of(constructors@) =~= Seq::<ConstructorModel>::empty());
        assert(owners_of(owners@) =~= Seq::<Owner>::empty());
        match self.variants_to_constructors(typename, variants, 0, &mut constructors, &mut owners, cache, fuel) {
            Err(fault) => {
                return Err(fault);
            },
            Ok(()) => {},
        }
        proof {
            let all = Seq::new(variants@.len(), |i: int| variants@[i]@);
            let found = sum_constructors(typename@, all, 0, old(self)@, cache, fuel as nat).0->Ok_0;
            assert(Seq::<ConstructorModel>::empty() + found.0 =~= found.0);
            assert(Seq::<Owner>::empty() + found.1 =~= found.1);
        }
        self.declare(Datatype { name: typename.clone(), constructors });
        self.define_constructors(typename, &owners, 0);
        Ok(Sort::Datatype(typename.clone()))
    }
}

} // verus!
