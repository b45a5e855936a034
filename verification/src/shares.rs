//! The declared shares whose sums the checks ask for.
use vstd::prelude::*;

use crate::models::{
    entries_model, field_variants_model, fields_model, lemma_content_model, DatasetEntry,
    DatasetEntryModel, Field, FieldModel, Num,
};
use crate::validate_field::{declared, declared_shares};

verus! {

/// The shares that the fields in and below a field declare, alternatives by alternatives.
pub open spec fn field_shares(f: FieldModel) -> Seq<Seq<Num>>
    decreases f, 1int,
{
    let own = if f.variants.len() > 0 {
        seq![declared(f.variants, f.variants.len() as int)]
    } else {
        Seq::empty()
    };
    let nested = own + nested_shares(f.fields, f.fields.len() as int);
    match f.content {
        Some(c) => nested + field_shares(c.item),
        None => nested,
    }
}

/// The shares that the first `n` fields, and those below them, declare.
pub open spec fn nested_shares(fields: Seq<FieldModel>, n: int) -> Seq<Seq<Num>>
    decreases fields, n,
{
    if n <= 0 || n > fields.len() {
        Seq::empty()
    } else {
        nested_shares(fields, n - 1) + field_shares(fields[n - 1])
    }
}

/// The shares that the fields of the first `n` datasets declare.
pub open spec fn dataset_shares(all: Seq<DatasetEntryModel>, n: int) -> Seq<Seq<Num>>
    decreases n,
{
    if n <= 0 {
        Seq::empty()
    } else {
        let data = all[n - 1].dataset.data;
        dataset_shares(all, n - 1) + nested_shares(data, data.len() as int)
    }
}

/// The lists of numbers, as sequences.
pub open spec fn number_lists(s: Seq<Vec<Num>>) -> Seq<Seq<Num>> {
    Seq::new(s.len(), |i: int| s[i]@)
}

fn list_field(field: &Field, out: &mut Vec<Vec<Num>>)
    ensures
        number_lists(final(out)@) == number_lists(old(out)@) + field_shares(field.model()),
    decreases field, 1int,
{
    let ghost f = field.model();
    let ghost before = number_lists(out@);
    assert(f.variants == field_variants_model(field.variants@));
    assert(f.fields == fields_model(field.fields@));
    assert(number_lists(out@) =~= before + Seq::<Seq<Num>>::empty());
    if field.variants.len() > 0 {
        let shares = declared_shares(&field.variants);
        let ghost own = shares@;
        out.push(shares);
        assert(number_lists(out@) =~= before + seq![own]);
    }
    let ghost middle = number_lists(out@);
    list_fields(&field.fields, out);
    let ghost nested = nested_shares(f.fields, f.fields.len() as int);
    assert(number_lists(out@) == middle + nested);
    if let Some(c) = &field.content {
        proof {
            lemma_content_model(*field);
        }
        list_field(&c.item, out);
    }
    assert(number_lists(out@) =~= before + field_shares(f));
}

fn list_fields(fields: &Vec<Field>, out: &mut Vec<Vec<Num>>)
    ensures
        number_lists(final(out)@) == number_lists(old(out)@) + nested_shares(
            fields_model(fields@),
            fields@.len() as int,
        ),
    decreases fields, 0int,
{
    let ghost fm = fields_model(fields@);
    let ghost before = number_lists(out@);
    let mut i: usize = 0;
    assert(number_lists(out@) =~= before + nested_shares(fm, 0));
    while i < fields.len()
        invariant
            i <= fields.len(),
            fm == fields_model(fields@),
            before == number_lists(old(out)@),
            number_lists(out@) == before + nested_shares(fm, i as int),
        decreases fields.len() - i,
    {
        assert(fm[i as int] == fields[i as int].model());
        assert(decreases_to!(fields => fields@[i as int]));
        list_field(&fields[i], out);
        i += 1;
        assert(number_lists(out@) =~= before + nested_shares(fm, i as int));
    }
}

/// The shares that alternatives declare anywhere in the datasets. The checks ask how each of these
/// lists adds up.
pub fn all_declared_shares(datasets: &Vec<DatasetEntry>) -> (r: Vec<Vec<Num>>)
    ensures
        number_lists(r@) == dataset_shares(entries_model(datasets@), datasets@.len() as int),
{
    let ghost em = entries_model(datasets@);
    let mut r: Vec<Vec<Num>> = Vec::new();
    let mut i: usize = 0;
    assert(number_lists(r@) =~= dataset_shares(em, 0));
    while i < datasets.len()
        invariant
            i <= datasets.len(),
            em == entries_model(datasets@),
            number_lists(r@) == dataset_shares(em, i as int),
        decreases datasets.len() - i,
    {
        assert(em[i as int] == datasets[i as int].model());
        assert(em[i as int].dataset.data == fields_model(datasets[i as int].dataset.data@));
        list_fields(&datasets[i].dataset.data, &mut r);
        i += 1;
    }
    r
}

} // verus!
