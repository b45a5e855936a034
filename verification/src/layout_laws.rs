//! What checking the layout promises: flattened names, choices in flat files, and imported values
//! that stay where they are.
use vstd::prelude::*;

use crate::expand_variants::{mixed, no_mixed_variant, no_mixed_variants};
use crate::import_laws::law_imported_columns_are_named;
use crate::models::{
    DatasetEntryModel, FieldModel, FieldType, FieldVariantModel, FlattenStrategy, Format,
    Generator, IncludeModel, RefsSpecModel, SyntheticDatasetModel,
};
use crate::models::law_joined_ref_splits;
use crate::output::flattened;
use crate::output_laws::law_record_entries_become_columns;
use crate::schema::{column_of, column_type};
use crate::validate::{
    child_taint_problem, children_problem, listed_taint_problem, reads_tainted, taint_of,
    taint_problem, tainted_field_problem, tainted_fields_problem, tainted_names,
};
use crate::validate_flatten::{
    all_case_names, case_label, case_names, csv_problem, first_mixed, first_repeat, first_taken,
    flatten_field_problem, flatten_problem, labelled_names, layout, names_of, pulled_names,
    sibling,
};
use crate::validate_links::field_list_check;

verus! {

// ---------------------------------------------------------------------------
// Generators
// ---------------------------------------------------------------------------

/// Every generator can write text; only coordinates and decimals make numbers, and only the
/// generators of dates and instants make those.
pub proof fn law_generators_fit_what_they_make(g: Generator)
    ensures
        g.fits(FieldType::String),
        g.fits(FieldType::Number) <==> g == Generator::Latitude || g == Generator::Longitude || g
            == Generator::Decimal || g == Generator::PositiveDecimal,
        g.fits(FieldType::Date) <==> g == Generator::Date,
        g.fits(FieldType::DateTime) <==> g == Generator::DateTime,
        !g.fits(FieldType::Boolean),
        !g.fits(FieldType::Object),
        !g.fits(FieldType::List),
{
}

// ---------------------------------------------------------------------------
// Names of flattened fields
// ---------------------------------------------------------------------------

proof fn lemma_names_of(fields: Seq<FieldModel>, n: int, i: int)
    requires
        0 <= i < n <= fields.len(),
    ensures
        names_of(fields, n).len() == n,
        names_of(fields, n)[i] == fields[i].name,
    decreases n,
{
    if i < n - 1 {
        lemma_names_of(fields, n - 1, i);
    } else if n > 1 {
        lemma_names_of(fields, n - 1, 0);
    } else {
        assert(names_of(fields, 0).len() == 0);
    }
}

proof fn lemma_labelled(label: Seq<char>, fields: Seq<FieldModel>, n: int, i: int)
    requires
        0 <= i < n <= fields.len(),
    ensures
        labelled_names(label, fields, n).len() == n,
        labelled_names(label, fields, n)[i] == label + "_"@ + fields[i].name,
    decreases n,
{
    if i < n - 1 {
        lemma_labelled(label, fields, n - 1, i);
    } else if n > 1 {
        lemma_labelled(label, fields, n - 1, 0);
    } else {
        assert(labelled_names(label, fields, 0).len() == 0);
    }
}

/// The names that checking expects of a flattened object are those that it is written under.
pub proof fn law_objects_are_written_under_the_names_checked(
    f: FieldModel,
    column: usize,
    strategy: FlattenStrategy,
    i: int,
)
    requires
        f.parquet is None,
        f.field_type == Some(FieldType::Object),
        0 <= i < f.fields.len() <= usize::MAX,
        f.fields[i].name.len() > 0,
    ensures
        pulled_names(f, strategy).len() == f.fields.len(),
        pulled_names(f, strategy)[i] == f.fields[i].name,
        flattened(column as int, column_of(f), strategy) is Some,
        flattened(column as int, column_of(f), strategy)->0[i].name == pulled_names(
            f,
            strategy,
        )[i],
{
    lemma_names_of(f.fields, f.fields.len() as int, i);
    crate::output_laws::law_records_have_their_fields(f, i);
    let entries = column_type(f)->Struct_0;
    law_record_entries_become_columns(column, entries, entries.len() as int, i);
    assert(column_of(f).kind == column_type(f));
}

/// Every case of a flattened choice is expected under its names: a plain case under its label, a
/// record case under the names of its fields, with the label before them where the layout asks for
/// it.
pub proof fn law_cases_are_expected_under_their_names(
    name: Seq<char>,
    variants: Seq<FieldVariantModel>,
    strategy: FlattenStrategy,
    n: int,
    c: int,
    i: int,
)
    requires
        0 <= c < n <= variants.len(),
        variants[c].fields.len() > 0 ==> 0 <= i < variants[c].fields.len(),
    ensures
        all_case_names(name, variants, strategy, n).contains(
            if variants[c].fields.len() == 0 {
                case_label(name, variants[c], c)
            } else if strategy == FlattenStrategy::Prefixed {
                case_label(name, variants[c], c) + "_"@ + variants[c].fields[i].name
            } else {
                variants[c].fields[i].name
            },
        ),
        variants[c].name is Some ==> case_label(name, variants[c], c) == variants[c].name->0,
    decreases n,
{
    let want = if variants[c].fields.len() == 0 {
        case_label(name, variants[c], c)
    } else if strategy == FlattenStrategy::Prefixed {
        case_label(name, variants[c], c) + "_"@ + variants[c].fields[i].name
    } else {
        variants[c].fields[i].name
    };
    let before = all_case_names(name, variants, strategy, n - 1);
    let now = all_case_names(name, variants, strategy, n);
    if c < n - 1 {
        law_cases_are_expected_under_their_names(name, variants, strategy, n - 1, c, i);
        let k = choose|k: int| 0 <= k < before.len() && before[k] == want;
        assert(now[k] == want);
    } else {
        let own = case_names(name, variants[c], c, strategy);
        if variants[c].fields.len() == 0 {
            assert(now[before.len() as int] == want);
        } else {
            let fields = variants[c].fields;
            lemma_names_of(fields, fields.len() as int, i);
            lemma_labelled(case_label(name, variants[c], c), fields, fields.len() as int, i);
            assert(own[i] == want);
            assert(now[before.len() + i] == want);
        }
    }
}

proof fn lemma_not_taken(
    names: Seq<Seq<char>>,
    fields: Seq<FieldModel>,
    i: int,
    n: int,
    k: int,
)
    requires
        0 <= k < n <= names.len(),
        first_taken(names, fields, i, n) is None,
    ensures
        !sibling(fields, i, names[k]),
    decreases n,
{
    if k < n - 1 {
        lemma_not_taken(names, fields, i, n - 1, k);
    }
}

proof fn lemma_not_repeated(names: Seq<Seq<char>>, n: int, a: int, b: int)
    requires
        0 <= a < b < n <= names.len(),
        first_repeat(names, n) is None,
    ensures
        names[a] != names[b],
    decreases n,
{
    if b < n - 1 {
        lemma_not_repeated(names, n - 1, a, b);
    } else {
        let before = names.subrange(0, n - 1);
        assert(before[a] == names[a]);
    }
}

/// A format with columns lays cases out as the field declares, side by side where it declares
/// nothing; a format with keys per row always lays them side by side.
pub proof fn law_layouts_are_those_declared(f: FieldModel, format: Format)
    ensures
        format == Format::Json || format == Format::Jsonl ==> layout(f, format)
            == FlattenStrategy::Superset,
        (format == Format::Csv || format == Format::Parquet) && f.flatten_strategy is Some
            ==> layout(f, format) == f.flatten_strategy->0,
        (format == Format::Csv || format == Format::Parquet) && f.flatten_strategy is None
            ==> layout(f, format) == FlattenStrategy::Superset,
{
}

/// Where a flattened field passes, it is a named object or choice at the top, none of the names
/// that come out is that of another field, no two cases give the same name to a column, and the
/// label column has a name of its own.
pub proof fn law_flattened_names_do_not_collide(
    fields: Seq<FieldModel>,
    i: int,
    format: Format,
    prefix: Seq<char>,
    k: int,
    j: int,
    l: int,
)
    requires
        0 <= i < fields.len(),
        fields[i].flatten,
        flatten_field_problem(fields, i, format, prefix) is None,
    ensures
        fields[i].field_type == Some(FieldType::Object) || fields[i].field_type == Some(
            FieldType::Variant,
        ),
        fields[i].name.len() > 0,
        prefix.len() == 0,
        ({
            let names = pulled_names(fields[i], layout(fields[i], format));
            let columns = format == Format::Csv || format == Format::Parquet;
            &&& 0 <= k < names.len() && 0 <= j < fields.len() && j != i ==> fields[j].name
                != names[k]
            &&& columns && fields[i].field_type == Some(FieldType::Variant)
                && fields[i].variants.len() > 1 && 0 <= k < l < names.len() ==> names[k] != names[l]
            &&& columns && layout(fields[i], format) == FlattenStrategy::Discriminant && 0 <= k
                < names.len() ==> names[k] != fields[i].name + "_case"@
            &&& columns && layout(fields[i], format) == FlattenStrategy::Discriminant && 0 <= j
                < fields.len() && j != i ==> fields[j].name != fields[i].name + "_case"@
        }),
{
    let names = pulled_names(fields[i], layout(fields[i], format));
    if 0 <= k < names.len() {
        lemma_not_taken(names, fields, i, names.len() as int, k);
        assert(names.contains(names[k]));
        if k < l < names.len() && first_repeat(names, names.len() as int) is None {
            lemma_not_repeated(names, names.len() as int, k, l);
        }
    }
    if 0 <= j < fields.len() {
        assert(fields[j].name == fields[j].name);
    }
}

/// A way to flatten is only declared for a flattened choice, and a dataset that passes passes in
/// every field.
pub proof fn law_every_field_passes_flattening(
    fields: Seq<FieldModel>,
    format: Format,
    prefix: Seq<char>,
    n: int,
    i: int,
)
    requires
        0 <= i < n <= fields.len(),
        flatten_problem(fields, format, prefix, n) is None,
    ensures
        flatten_field_problem(fields, i, format, prefix) is None,
        fields[i].flatten_strategy is Some ==> fields[i].flatten && fields[i].field_type == Some(
            FieldType::Variant,
        ),
    decreases n,
{
    if i < n - 1 {
        law_every_field_passes_flattening(fields, format, prefix, n - 1, i);
    }
}

// ---------------------------------------------------------------------------
// Flat files
// ---------------------------------------------------------------------------

proof fn lemma_first_mixed(fields: Seq<FieldModel>, prefix: Seq<char>, from: int)
    requires
        0 <= from <= fields.len(),
    ensures
        first_mixed(fields, prefix, from) is None <==> forall|i: int|
            from <= i < fields.len() ==> no_mixed_variant(#[trigger] fields[i]),
    decreases fields, fields.len() - from,
{
    reveal_with_fuel(no_mixed_variant, 2);
    reveal_with_fuel(no_mixed_variants, 2);
    if from < fields.len() {
        let f = fields[from];
        lemma_first_mixed(fields, prefix, from + 1);
        if f.field_type == Some(FieldType::Object) {
            lemma_first_mixed(f.fields, crate::validate_flatten::path_below(prefix, f.name), 0);
            assert(no_mixed_variants(f.fields) <==> forall|i: int|
                0 <= i < f.fields.len() ==> no_mixed_variant(#[trigger] f.fields[i]));
        }
        assert(no_mixed_variant(f) <==> !(f.field_type == Some(FieldType::Variant) && mixed(
            f.variants,
        )) && (f.field_type == Some(FieldType::Object) ==> no_mixed_variants(f.fields)));
    }
}

/// A flat file passes exactly where no field, at any depth of objects, has choices of more than
/// one type; any other format always passes.
pub proof fn law_flat_files_hold_no_mixed_choices(ds: SyntheticDatasetModel)
    ensures
        ds.format == Format::Csv ==> (csv_problem(ds) is None <==> forall|i: int|
            0 <= i < ds.data.len() ==> no_mixed_variant(#[trigger] ds.data[i])),
        ds.format != Format::Csv ==> csv_problem(ds) is None,
{
    lemma_first_mixed(ds.data, Seq::empty(), 0);
}

/// What is excluded must be excluded from something: an include with exclusions passes exactly
/// where it lists fields.
pub proof fn law_exclusions_need_a_list(
    name: Seq<char>,
    inc: IncludeModel,
    kind: Seq<char>,
    all: Seq<DatasetEntryModel>,
)
    ensures
        field_list_check(name, inc, kind, all) is Ok <==> inc.exclude is None || inc.fields.len()
            > 0,
        inc.exclude is None && inc.fields.len() == 0 ==> field_list_check(name, inc, kind, all)
            == Ok::<Seq<Seq<char>>, Seq<crate::message::PartModel>>(Seq::empty()),
{
}

// ---------------------------------------------------------------------------
// Imported values
// ---------------------------------------------------------------------------

proof fn lemma_taint_source(data: Seq<FieldModel>, n: int, name: Seq<char>)
    requires
        0 <= n <= data.len(),
    ensures
        tainted_names(data, n).contains(name) <==> (exists|i: int|
            0 <= i < data.len() && (#[trigger] data[i]).imported_taint && data[i].name == name) || (
        exists|i: int|
            0 <= i < n && (#[trigger] data[i]).name == name && data[i].expression is Some
                && reads_tainted(data[i].expression->0, tainted_names(data, i))),
    decreases n,
{
    if n <= 0 {
        law_imported_columns_are_named(data, data.len() as int, name);
    } else {
        lemma_taint_source(data, n - 1, name);
        let before = tainted_names(data, n - 1);
        let now = tainted_names(data, n);
        if before.contains(name) {
            let k = choose|k: int| 0 <= k < before.len() && before[k] == name;
            assert(now[k] == name);
        }
        if now.len() > before.len() {
            assert(now[before.len() as int] == data[n - 1].name);
        }
        if now.contains(name) && !before.contains(name) {
            let k = choose|k: int| 0 <= k < now.len() && now[k] == name;
            assert(k == before.len());
        }
    }
}

/// Values count as imported exactly where they come from the file, or are computed from a name
/// that does by then.
pub proof fn law_imported_values_are_those_of_the_file(data: Seq<FieldModel>, name: Seq<char>)
    ensures
        tainted_names(data, data.len() as int).contains(name) <==> (exists|i: int|
            0 <= i < data.len() && (#[trigger] data[i]).imported_taint && data[i].name == name) || (
        exists|i: int|
            0 <= i < data.len() && (#[trigger] data[i]).name == name && data[i].expression is Some
                && reads_tainted(data[i].expression->0, tainted_names(data, i))),
{
    lemma_taint_source(data, data.len() as int, name);
}

proof fn lemma_listed_taint(
    child: Seq<char>,
    fields: Seq<Seq<char>>,
    taint: Seq<Seq<char>>,
    n: int,
)
    requires
        0 <= n <= fields.len(),
    ensures
        listed_taint_problem(child, fields, taint, n) is None <==> forall|i: int|
            0 <= i < n && #[trigger] fields[i] != "*"@ ==> !taint.contains(fields[i]),
    decreases n,
{
    if n > 0 {
        lemma_listed_taint(child, fields, taint, n - 1);
    }
}

proof fn lemma_tainted_fields(
    child: Seq<char>,
    data: Seq<FieldModel>,
    reference: Seq<char>,
    taint: Seq<Seq<char>>,
    n: int,
)
    requires
        0 <= n <= data.len(),
    ensures
        tainted_fields_problem(child, data, reference, taint, n) is None <==> forall|i: int|
            0 <= i < n ==> tainted_field_problem(child, #[trigger] data[i], reference, taint)
                is None,
    decreases n,
{
    if n > 0 {
        lemma_tainted_fields(child, data, reference, taint, n - 1);
    }
}

/// A child that passes takes over nothing imported: it neither lists, nor names, nor refers to a
/// column with imported values.
pub proof fn law_children_take_over_nothing_imported(
    child: SyntheticDatasetModel,
    inc: IncludeModel,
    taint: Seq<Seq<char>>,
    name: Seq<char>,
    i: int,
)
    requires
        child_taint_problem(child, inc, taint) is None,
        taint.contains(name),
        !inc.reference.contains('.'),
    ensures
        0 <= i < inc.fields.len() && name != "*"@ ==> inc.fields[i] != name,
        0 <= i < child.data.len() ==> child.data[i].name != name,
        0 <= i < child.data.len() ==> child.data[i].refs != Some(
            RefsSpecModel::Single(inc.reference + seq!['.'] + name),
        ),
{
    lemma_listed_taint(child.name, inc.fields, taint, inc.fields.len() as int);
    lemma_tainted_fields(child.name, child.data, inc.reference, taint, child.data.len() as int);
    law_joined_ref_splits(inc.reference, name);
    if 0 <= i < child.data.len() {
        assert(tainted_field_problem(child.name, child.data[i], inc.reference, taint) is None);
    }
}

proof fn lemma_children(
    all: Seq<DatasetEntryModel>,
    path: Seq<char>,
    taint: Seq<Seq<char>>,
    n: int,
    c: int,
)
    requires
        0 <= c < n <= all.len(),
        children_problem(all, path, taint, n) is None,
        all[c].dataset.include_spec is Some,
        all[c].dataset.include_spec->0.resolved == Some(path),
    ensures
        child_taint_problem(all[c].dataset, all[c].dataset.include_spec->0, taint) is None,
    decreases n,
{
    if c < n - 1 {
        lemma_children(all, path, taint, n - 1, c);
    }
}

/// Where checking succeeds, every child of every dataset that imports takes over nothing imported.
pub proof fn law_imported_values_stay_in_their_dataset(
    all: Seq<DatasetEntryModel>,
    n: int,
    p: int,
    c: int,
)
    requires
        0 <= p < n <= all.len(),
        0 <= c < all.len(),
        taint_problem(all, n) is None,
        all[p].dataset.import is Some,
        taint_of(all[p].dataset).len() > 0,
        all[c].dataset.include_spec is Some,
        all[c].dataset.include_spec->0.resolved == Some(all[p].path),
    ensures
        child_taint_problem(
            all[c].dataset,
            all[c].dataset.include_spec->0,
            taint_of(all[p].dataset),
        ) is None,
    decreases n,
{
    if p < n - 1 {
        law_imported_values_stay_in_their_dataset(all, n - 1, p, c);
    } else {
        lemma_children(all, all[p].path, taint_of(all[p].dataset), all.len() as int, c);
    }
}

} // verus!
