//! The rules that loaded datasets must meet before anything is planned.
use vstd::prelude::*;

use crate::expressions::{extract_identifiers, names_from, slices_view};
use crate::import::{declares, imported_column_names, imported_names, is_declared};
use crate::message::{
    first_of, join3, join5, join7, numbered, numbered_problem, problem_of, PartModel, Problem,
};
use crate::models::{
    entries_model, fields_model, ref_parts, split_ref, DatasetEntry, DatasetEntryModel, Field,
    FieldModel, Include, IncludeModel, Num, SyntheticDataset, SyntheticDatasetModel, ONE_KEY,
};
use crate::text::{holds_text, same_text, texts};
use crate::validate_field::{
    checked, fail_field, field_says, followed_by, reports, totals_model, warn, warning_if,
    ShareTotal, ShareTotalModel,
};
use crate::validate_flatten::{
    check_csv_heterogeneous_variant, csv_problem, flatten_problem, validate_flatten,
};
use crate::validate_links::{
    all_bindings_problem, check_fields, check_include_options, check_links, dataset_fields_check,
    dataset_says, fail_dataset, include_options_check, links_problem, refs_problem,
    validate_collect_bindings, validate_dataset_refs,
};
use crate::validate_quality::{check_data_quality_stanzas, quality_stanza_problem};

verus! {

broadcast use crate::text::group_extends;

// ---------------------------------------------------------------------------
// Rows
// ---------------------------------------------------------------------------

/// The outcome of checking what decides a dataset's number of rows.
pub open spec fn row_count_check(ds: SyntheticDatasetModel) -> Result<
    Seq<Seq<char>>,
    Seq<PartModel>,
> {
    checked(
        if ds.rows is Some && ds.include_spec is Some && ds.include_spec->0.ratio is Some {
            dataset_says(
                ds.name,
                "`rows` cannot be set when `include` specifies a `ratio` — the row count is derived from the ratio and the included dataset's size. Remove the `rows` field."@,
            )
        } else if ds.rows is Some && ds.import is Some {
            dataset_says(
                ds.name,
                "`rows` cannot be set when `import` is present — row count is determined by the imported file. Remove the `rows` field."@,
            )
        } else {
            None
        },
        warning_if(
            ds.rows is None && ds.include_spec is None && ds.import is None,
            "warning: dataset '"@ + ds.name
                + "' has no includes and no explicit `rows` — defaulting to 100 rows"@,
        ),
    )
}

/// Checks what decides a dataset's number of rows.
pub fn check_row_count_rules(dataset: &SyntheticDataset, warnings: &mut Vec<String>) -> (r: Result<
    (),
    Problem,
>)
    ensures
        reports(
            r,
            texts(old(warnings)@),
            texts(final(warnings)@),
            row_count_check(dataset.model()),
        ),
        r is Err ==> texts(final(warnings)@) == texts(old(warnings)@),
{
    let by_ratio: bool = match &dataset.include_spec {
        Some(inc) => {
            assert(dataset.model().include_spec == Some(inc.model()));
            inc.ratio.is_some()
        },
        None => false,
    };
    if dataset.rows.is_some() && by_ratio {
        return fail_dataset(
            &dataset.name,
            "`rows` cannot be set when `include` specifies a `ratio` — the row count is derived from the ratio and the included dataset's size. Remove the `rows` field.",
        );
    }
    if dataset.rows.is_some() && dataset.import.is_some() {
        return fail_dataset(
            &dataset.name,
            "`rows` cannot be set when `import` is present — row count is determined by the imported file. Remove the `rows` field.",
        );
    }
    if dataset.rows.is_none() && dataset.include_spec.is_none() && dataset.import.is_none() {
        warn(
            warnings,
            join3(
                "warning: dataset '",
                &dataset.name,
                "' has no includes and no explicit `rows` — defaulting to 100 rows",
            ),
        );
    } else {
        assert(texts(warnings@) =~= texts(warnings@) + Seq::<Seq<char>>::empty());
    }
    Ok(())
}

/// The problem of the bounds of an import's ring: they lie between zero and one, in this order.
pub open spec fn ring_problem(ds: SyntheticDatasetModel) -> Option<Seq<PartModel>> {
    match ds.import {
        None => None,
        Some(spec) => match spec.ring {
            None => None,
            Some(ring) => if ring.start.below(Num::zero()) || Num::one().below(ring.end) {
                Some(
                    numbered(
                        "dataset '"@ + ds.name
                            + "': `import.ring` values must lie in [0.0, 1.0); got ["@,
                        ring.start,
                        ", "@,
                        ring.end,
                        ")"@,
                    ),
                )
            } else if ring.end.at_most(ring.start) {
                Some(
                    numbered(
                        "dataset '"@ + ds.name + "': `import.ring.start` ("@,
                        ring.start,
                        ") must be less than `import.ring.end` ("@,
                        ring.end,
                        ")"@,
                    ),
                )
            } else {
                None
            },
        },
    }
}

/// Checks the bounds of an import's ring.
pub fn check_import_ring(dataset: &SyntheticDataset) -> (r: Result<(), Problem>)
    ensures
        problem_of(r) == ring_problem(dataset.model()),
{
    if let Some(spec) = &dataset.import {
        assert(dataset.model().import == Some(spec.model()));
        if let Some(ring) = &spec.ring {
            if ring.start.lt(Num { key: 0 }) || (Num { key: ONE_KEY }).lt(ring.end) {
                return Err(
                    numbered_problem(
                        join3(
                            "dataset '",
                            &dataset.name,
                            "': `import.ring` values must lie in [0.0, 1.0); got [",
                        ),
                        ring.start,
                        ", ",
                        ring.end,
                        ")",
                    ),
                );
            }
            if ring.end.le(ring.start) {
                return Err(
                    numbered_problem(
                        join3("dataset '", &dataset.name, "': `import.ring.start` ("),
                        ring.start,
                        ") must be less than `import.ring.end` (",
                        ring.end,
                        ")",
                    ),
                );
            }
        }
    }
    Ok(())
}

// ---------------------------------------------------------------------------
// Order of computed fields
// ---------------------------------------------------------------------------

/// A field before position `n` has the given name.
pub open spec fn defined_before(fields: Seq<FieldModel>, name: Seq<char>, n: int) -> bool {
    exists|i: int| 0 <= i < n && i < fields.len() && (#[trigger] fields[i]).name == name
}

/// The problem of the first of the first `m` names in an expression that is defined only later.
pub open spec fn forward_problem(
    ds: SyntheticDatasetModel,
    n: int,
    names: Seq<Seq<char>>,
    m: int,
) -> Option<Seq<PartModel>>
    decreases m,
{
    if m <= 0 {
        None
    } else {
        first_of(
            forward_problem(ds, n, names, m - 1),
            if declares(ds.data, names[m - 1]) && !defined_before(ds.data, names[m - 1], n) {
                field_says(
                    ds.name + "."@ + ds.data[n].name,
                    "expression references '"@ + names[m - 1]
                        + "' which must be defined above it"@,
                )
            } else {
                None
            },
        )
    }
}

proof fn lemma_forward_stays(
    ds: SyntheticDatasetModel,
    n: int,
    names: Seq<Seq<char>>,
    k: int,
    m: int,
)
    requires
        0 <= k <= m,
        forward_problem(ds, n, names, k) is Some,
    ensures
        forward_problem(ds, n, names, m) == forward_problem(ds, n, names, k),
    decreases m - k,
{
    if k < m {
        lemma_forward_stays(ds, n, names, k, m - 1);
    }
}

/// The first problem of the order of the first `n` computed fields: each may read only what
/// stands above it.
pub open spec fn order_problem(ds: SyntheticDatasetModel, n: int) -> Option<Seq<PartModel>>
    decreases n,
{
    if n <= 0 {
        None
    } else {
        first_of(
            order_problem(ds, n - 1),
            match ds.data[n - 1].expression {
                None => None,
                Some(e) => forward_problem(
                    ds,
                    n - 1,
                    names_from(e, 0),
                    names_from(e, 0).len() as int,
                ),
            },
        )
    }
}

proof fn lemma_order_stays(ds: SyntheticDatasetModel, k: int, n: int)
    requires
        0 <= k <= n,
        order_problem(ds, k) is Some,
    ensures
        order_problem(ds, n) == order_problem(ds, k),
    decreases n - k,
{
    if k < n {
        lemma_order_stays(ds, k, n - 1);
    }
}

fn is_defined_before(data: &Vec<Field>, name: &str, n: usize) -> (r: bool)
    requires
        n <= data.len(),
    ensures
        r == defined_before(fields_model(data@), name@, n as int),
{
    let ghost dm = fields_model(data@);
    let mut i: usize = 0;
    while i < n
        invariant
            i <= n <= data.len(),
            dm == fields_model(data@),
            forall|j: int| 0 <= j < i ==> (#[trigger] dm[j]).name != name@,
        decreases n - i,
    {
        assert(dm[i as int] == data[i as int].model());
        if same_text(&data[i].name, name) {
            return true;
        }
        i += 1;
    }
    false
}

fn check_forward(dataset: &SyntheticDataset, n: usize, expression: &str) -> (r: Result<(), Problem>)
    requires
        n < dataset.data.len(),
    ensures
        problem_of(r) == forward_problem(
            dataset.model(),
            n as int,
            names_from(expression@, 0),
            names_from(expression@, 0).len() as int,
        ),
{
    let names = extract_identifiers(expression);
    let ghost nm = names_from(expression@, 0);
    let ghost ds = dataset.model();
    assert(ds.data == fields_model(dataset.data@));
    assert(ds.data[n as int] == dataset.data[n as int].model());
    let mut i: usize = 0;
    while i < names.len()
        invariant
            i <= names.len(),
            n < dataset.data.len(),
            slices_view(names@) == nm,
            nm == names_from(expression@, 0),
            ds == dataset.model(),
            ds.data == fields_model(dataset.data@),
            ds.data[n as int] == dataset.data[n as int].model(),
            forward_problem(ds, n as int, nm, i as int) is None,
        decreases names.len() - i,
    {
        assert(slices_view(names@)[i as int] == names@[i as int]@);
        if is_declared(&dataset.data, names[i]) && !is_defined_before(
            &dataset.data,
            names[i],
            n,
        ) {
            proof {
                lemma_forward_stays(ds, n as int, nm, i + 1, nm.len() as int);
            }
            let path = join3(&dataset.name, ".", &dataset.data[n].name);
            let text = join3(
                "expression references '",
                names[i],
                "' which must be defined above it",
            );
            return fail_field(&path, &text);
        }
        i += 1;
    }
    Ok(())
}

/// Checks that every computed field reads only fields above it.
pub fn validate_expression_order(dataset: &SyntheticDataset) -> (r: Result<(), Problem>)
    ensures
        problem_of(r) == order_problem(dataset.model(), dataset.model().data.len() as int),
{
    let ghost ds = dataset.model();
    assert(ds.data == fields_model(dataset.data@));
    let mut i: usize = 0;
    while i < dataset.data.len()
        invariant
            i <= dataset.data.len(),
            ds == dataset.model(),
            ds.data == fields_model(dataset.data@),
            order_problem(ds, i as int) is None,
        decreases dataset.data.len() - i,
    {
        assert(ds.data[i as int] == dataset.data[i as int].model());
        if let Some(e) = &dataset.data[i].expression {
            if let Err(p) = check_forward(dataset, i, e) {
                proof {
                    lemma_order_stays(ds, i + 1, ds.data.len() as int);
                }
                return Err(p);
            }
        }
        i += 1;
    }
    Ok(())
}

proof fn lemma_no_forward(
    ds: SyntheticDatasetModel,
    n: int,
    names: Seq<Seq<char>>,
    m: int,
    k: int,
)
    requires
        0 <= k < m,
        forward_problem(ds, n, names, m) is None,
    ensures
        declares(ds.data, names[k]) ==> defined_before(ds.data, names[k], n),
    decreases m,
{
    if k < m - 1 {
        lemma_no_forward(ds, n, names, m - 1, k);
    }
}

/// In a dataset that passes, every field that an expression reads stands above it.
pub proof fn law_expressions_read_upwards(ds: SyntheticDatasetModel, n: int, i: int, k: int)
    requires
        0 <= i < n <= ds.data.len(),
        order_problem(ds, n) is None,
        ds.data[i].expression is Some,
        0 <= k < names_from(ds.data[i].expression->0, 0).len(),
    ensures
        declares(ds.data, names_from(ds.data[i].expression->0, 0)[k]) ==> defined_before(
            ds.data,
            names_from(ds.data[i].expression->0, 0)[k],
            i,
        ),
    decreases n,
{
    if i < n - 1 {
        law_expressions_read_upwards(ds, n - 1, i, k);
    } else {
        let names = names_from(ds.data[i].expression->0, 0);
        lemma_no_forward(ds, i, names, names.len() as int, k);
    }
}

// ---------------------------------------------------------------------------
// Imported columns
// ---------------------------------------------------------------------------

/// True when an expression reads one of the given names.
pub open spec fn reads_tainted(expression: Seq<char>, names: Seq<Seq<char>>) -> bool {
    exists|i: int|
        0 <= i < names_from(expression, 0).len() && names.contains(
            #[trigger] names_from(expression, 0)[i],
        )
}

/// The imported columns, and those of the first `n` fields that are computed from them.
pub open spec fn tainted_names(data: Seq<FieldModel>, n: int) -> Seq<Seq<char>>
    decreases n,
{
    if n <= 0 {
        imported_names(data, data.len() as int)
    } else {
        let before = tainted_names(data, n - 1);
        match data[n - 1].expression {
            Some(e) => if reads_tainted(e, before) {
                before.push(data[n - 1].name)
            } else {
                before
            },
            None => before,
        }
    }
}

/// The names that hold imported values in a dataset.
pub open spec fn taint_of(ds: SyntheticDatasetModel) -> Seq<Seq<char>> {
    tainted_names(ds.data, ds.data.len() as int)
}

fn reads_one_of(expression: &str, names: &Vec<String>) -> (r: bool)
    ensures
        r == reads_tainted(expression@, texts(names@)),
{
    let read = extract_identifiers(expression);
    let ghost rm = names_from(expression@, 0);
    let mut i: usize = 0;
    while i < read.len()
        invariant
            i <= read.len(),
            rm == names_from(expression@, 0),
            slices_view(read@) == rm,
            forall|j: int| 0 <= j < i ==> !texts(names@).contains(#[trigger] rm[j]),
        decreases read.len() - i,
    {
        assert(slices_view(read@)[i as int] == read@[i as int]@);
        if holds_text(names, read[i]) {
            return true;
        }
        i += 1;
    }
    false
}

/// The imported columns of a dataset and all that is computed from them.
pub fn taint_closure(dataset: &SyntheticDataset) -> (r: Vec<String>)
    ensures
        texts(r@) == taint_of(dataset.model()),
{
    let ghost dm = dataset.model().data;
    assert(dm == fields_model(dataset.data@));
    let mut r = imported_column_names(dataset);
    let mut i: usize = 0;
    while i < dataset.data.len()
        invariant
            i <= dataset.data.len(),
            dm == fields_model(dataset.data@),
            texts(r@) == tainted_names(dm, i as int),
        decreases dataset.data.len() - i,
    {
        assert(dm[i as int] == dataset.data[i as int].model());
        if let Some(e) = &dataset.data[i].expression {
            if reads_one_of(e, &r) {
                let ghost before = r@;
                r.push(dataset.data[i].name.clone());
                assert(texts(r@) =~= texts(before).push(dm[i as int].name));
            }
        }
        i += 1;
    }
    r
}

/// The problem of an include that lists an imported column among its first `n` fields.
pub open spec fn listed_taint_problem(
    child: Seq<char>,
    fields: Seq<Seq<char>>,
    taint: Seq<Seq<char>>,
    n: int,
) -> Option<Seq<PartModel>>
    decreases n,
{
    if n <= 0 {
        None
    } else {
        first_of(
            listed_taint_problem(child, fields, taint, n - 1),
            if fields[n - 1] != "*"@ && taint.contains(fields[n - 1]) {
                dataset_says(
                    child,
                    "`include.fields` lists '"@ + fields[n - 1]
                        + "' which is an imported column (or derived from one) in the included dataset; imported fields may not be propagated to children-by-inclusion"@,
                )
            } else {
                None
            },
        )
    }
}

proof fn lemma_listed_taint_stays(
    child: Seq<char>,
    fields: Seq<Seq<char>>,
    taint: Seq<Seq<char>>,
    k: int,
    n: int,
)
    requires
        0 <= k <= n,
        listed_taint_problem(child, fields, taint, k) is Some,
    ensures
        listed_taint_problem(child, fields, taint, n) == listed_taint_problem(
            child,
            fields,
            taint,
            k,
        ),
    decreases n - k,
{
    if k < n {
        lemma_listed_taint_stays(child, fields, taint, k, n - 1);
    }
}

/// The problem of a child's field that has the name of an imported column or refers to one.
pub open spec fn tainted_field_problem(
    child: Seq<char>,
    f: FieldModel,
    reference: Seq<char>,
    taint: Seq<Seq<char>>,
) -> Option<Seq<PartModel>> {
    if taint.contains(f.name) {
        dataset_says(
            child,
            "field '"@ + f.name
                + "' has the same name as an imported column (or derived field) in the included dataset '"@
                + reference
                + "'; imported fields may not be specialised by children-by-inclusion"@,
        )
    } else {
        match f.type_ref() {
            None => None,
            Some(s) => match ref_parts(s) {
                None => None,
                Some(p) => if p.0 == reference && taint.contains(p.1) {
                    dataset_says(
                        child,
                        "field '"@ + f.name + "' references imported column '"@ + p.0 + "."@ + p.1
                            + "'; imported fields may not be referenced by children-by-inclusion"@,
                    )
                } else {
                    None
                },
            },
        }
    }
}

/// The first such problem of the first `n` fields.
pub open spec fn tainted_fields_problem(
    child: Seq<char>,
    data: Seq<FieldModel>,
    reference: Seq<char>,
    taint: Seq<Seq<char>>,
    n: int,
) -> Option<Seq<PartModel>>
    decreases n,
{
    if n <= 0 {
        None
    } else {
        first_of(
            tainted_fields_problem(child, data, reference, taint, n - 1),
            tainted_field_problem(child, data[n - 1], reference, taint),
        )
    }
}

proof fn lemma_tainted_fields_stay(
    child: Seq<char>,
    data: Seq<FieldModel>,
    reference: Seq<char>,
    taint: Seq<Seq<char>>,
    k: int,
    n: int,
)
    requires
        0 <= k <= n,
        tainted_fields_problem(child, data, reference, taint, k) is Some,
    ensures
        tainted_fields_problem(child, data, reference, taint, n) == tainted_fields_problem(
            child,
            data,
            reference,
            taint,
            k,
        ),
    decreases n - k,
{
    if k < n {
        lemma_tainted_fields_stay(child, data, reference, taint, k, n - 1);
    }
}

/// The problem of a child that takes over imported values.
pub open spec fn child_taint_problem(
    child: SyntheticDatasetModel,
    inc: IncludeModel,
    taint: Seq<Seq<char>>,
) -> Option<Seq<PartModel>> {
    first_of(
        listed_taint_problem(child.name, inc.fields, taint, inc.fields.len() as int),
        tainted_fields_problem(
            child.name,
            child.data,
            inc.reference,
            taint,
            child.data.len() as int,
        ),
    )
}

fn check_tainted_field(child: &str, field: &Field, reference: &str, taint: &Vec<String>) -> (r:
    Result<(), Problem>)
    ensures
        problem_of(r) == tainted_field_problem(
            child@,
            field.model(),
            reference@,
            texts(taint@),
        ),
{
    if holds_text(taint, &field.name) {
        let text = join5(
            "field '",
            &field.name,
            "' has the same name as an imported column (or derived field) in the included dataset '",
            reference,
            "'; imported fields may not be specialised by children-by-inclusion",
        );
        return fail_dataset(child, &text);
    }
    if let Some(s) = field.simple_ref() {
        if let Some((a, b)) = split_ref(s) {
            if same_text(a, reference) && holds_text(taint, b) {
                let text = join7(
                    "field '",
                    &field.name,
                    "' references imported column '",
                    a,
                    ".",
                    b,
                    "'; imported fields may not be referenced by children-by-inclusion",
                );
                return fail_dataset(child, &text);
            }
        }
    }
    Ok(())
}

/// Checks that a child takes over no imported values.
pub fn check_child_against_taint(child: &SyntheticDataset, inc: &Include, taint: &Vec<String>) -> (r:
    Result<(), Problem>)
    ensures
        problem_of(r) == child_taint_problem(child.model(), inc.model(), texts(taint@)),
{
    let ghost name = child.name@;
    let ghost im = inc.model();
    let ghost tm = texts(taint@);
    assert(im.fields == texts(inc.fields@));
    let mut i: usize = 0;
    while i < inc.fields.len()
        invariant
            i <= inc.fields.len(),
            name == child.name@,
            im == inc.model(),
            im.fields == texts(inc.fields@),
            tm == texts(taint@),
            listed_taint_problem(name, im.fields, tm, i as int) is None,
        decreases inc.fields.len() - i,
    {
        assert(im.fields[i as int] == inc.fields[i as int]@);
        if !same_text(&inc.fields[i], "*") && holds_text(taint, &inc.fields[i]) {
            proof {
                lemma_listed_taint_stays(name, im.fields, tm, i + 1, im.fields.len() as int);
            }
            let text = join3(
                "`include.fields` lists '",
                &inc.fields[i],
                "' which is an imported column (or derived from one) in the included dataset; imported fields may not be propagated to children-by-inclusion",
            );
            return fail_dataset(&child.name, &text);
        }
        i += 1;
    }
    let ghost dm = fields_model(child.data@);
    assert(child.model().data == dm);
    let mut k: usize = 0;
    while k < child.data.len()
        invariant
            k <= child.data.len(),
            name == child.name@,
            im == inc.model(),
            tm == texts(taint@),
            dm == fields_model(child.data@),
            child.model().data == dm,
            listed_taint_problem(name, im.fields, tm, im.fields.len() as int) is None,
            tainted_fields_problem(name, dm, im.reference, tm, k as int) is None,
        decreases child.data.len() - k,
    {
        assert(dm[k as int] == child.data[k as int].model());
        if let Err(p) = check_tainted_field(&child.name, &child.data[k], &inc.reference, taint) {
            proof {
                lemma_tainted_fields_stay(name, dm, im.reference, tm, k + 1, dm.len() as int);
            }
            return Err(p);
        }
        k += 1;
    }
    Ok(())
}

/// The first problem of the first `n` datasets that are drawn from the dataset at `path`.
pub open spec fn children_problem(
    all: Seq<DatasetEntryModel>,
    path: Seq<char>,
    taint: Seq<Seq<char>>,
    n: int,
) -> Option<Seq<PartModel>>
    decreases n,
{
    if n <= 0 {
        None
    } else {
        first_of(
            children_problem(all, path, taint, n - 1),
            match all[n - 1].dataset.include_spec {
                None => None,
                Some(inc) => if inc.resolved == Some(path) {
                    child_taint_problem(all[n - 1].dataset, inc, taint)
                } else {
                    None
                },
            },
        )
    }
}

proof fn lemma_children_stay(
    all: Seq<DatasetEntryModel>,
    path: Seq<char>,
    taint: Seq<Seq<char>>,
    k: int,
    n: int,
)
    requires
        0 <= k <= n,
        children_problem(all, path, taint, k) is Some,
    ensures
        children_problem(all, path, taint, n) == children_problem(all, path, taint, k),
    decreases n - k,
{
    if k < n {
        lemma_children_stay(all, path, taint, k, n - 1);
    }
}

fn check_children(all: &Vec<DatasetEntry>, path: &str, taint: &Vec<String>) -> (r: Result<
    (),
    Problem,
>)
    ensures
        problem_of(r) == children_problem(
            entries_model(all@),
            path@,
            texts(taint@),
            all@.len() as int,
        ),
{
    let ghost am = entries_model(all@);
    let ghost tm = texts(taint@);
    let mut i: usize = 0;
    while i < all.len()
        invariant
            i <= all.len(),
            am == entries_model(all@),
            tm == texts(taint@),
            children_problem(am, path@, tm, i as int) is None,
        decreases all.len() - i,
    {
        assert(am[i as int] == all[i as int].model());
        let child = &all[i].dataset;
        if let Some(inc) = &child.include_spec {
            assert(child.model().include_spec == Some(inc.model()));
            let drawn: bool = match &inc.resolved {
                Some(p) => same_text(p, path),
                None => false,
            };
            assert(drawn == (inc.model().resolved == Some(path@)));
            if drawn {
                if let Err(p) = check_child_against_taint(child, inc, taint) {
                    proof {
                        lemma_children_stay(am, path@, tm, i + 1, am.len() as int);
                    }
                    return Err(p);
                }
            }
        }
        i += 1;
    }
    Ok(())
}

/// The first problem of imported values that leave one of the first `n` datasets.
pub open spec fn taint_problem(all: Seq<DatasetEntryModel>, n: int) -> Option<Seq<PartModel>>
    decreases n,
{
    if n <= 0 {
        None
    } else {
        first_of(
            taint_problem(all, n - 1),
            if all[n - 1].dataset.import is None || taint_of(all[n - 1].dataset).len() == 0 {
                None
            } else {
                children_problem(
                    all,
                    all[n - 1].path,
                    taint_of(all[n - 1].dataset),
                    all.len() as int,
                )
            },
        )
    }
}

proof fn lemma_taint_stays(all: Seq<DatasetEntryModel>, k: int, n: int)
    requires
        0 <= k <= n,
        taint_problem(all, k) is Some,
    ensures
        taint_problem(all, n) == taint_problem(all, k),
    decreases n - k,
{
    if k < n {
        lemma_taint_stays(all, k, n - 1);
    }
}

/// Checks that imported values stay in the datasets that import them.
pub fn check_import_taint(datasets: &Vec<DatasetEntry>) -> (r: Result<(), Problem>)
    ensures
        problem_of(r) == taint_problem(entries_model(datasets@), datasets@.len() as int),
{
    let ghost am = entries_model(datasets@);
    let mut i: usize = 0;
    while i < datasets.len()
        invariant
            i <= datasets.len(),
            am == entries_model(datasets@),
            taint_problem(am, i as int) is None,
        decreases datasets.len() - i,
    {
        assert(am[i as int] == datasets[i as int].model());
        if datasets[i].dataset.import.is_some() {
            let taint = taint_closure(&datasets[i].dataset);
            if taint.len() > 0 {
                if let Err(p) = check_children(datasets, &datasets[i].path, &taint) {
                    proof {
                        lemma_taint_stays(am, i + 1, am.len() as int);
                    }
                    return Err(p);
                }
            }
        }
        i += 1;
    }
    Ok(())
}

proof fn lemma_taint_grows(data: Seq<FieldModel>, k: int, n: int, name: Seq<char>)
    requires
        0 <= k <= n,
        tainted_names(data, k).contains(name),
    ensures
        tainted_names(data, n).contains(name),
    decreases n - k,
{
    if k < n {
        lemma_taint_grows(data, k, n - 1, name);
        let before = tainted_names(data, n - 1);
        let after = tainted_names(data, n);
        if after != before {
            let i = before.index_of(name);
            assert(after[i] == name);
        }
    }
}

/// The closure holds every imported column, and every field that reads a name which holds imported
/// values when its turn comes.
pub proof fn law_taint_is_closed(data: Seq<FieldModel>, n: int, i: int)
    requires
        0 <= i < n <= data.len(),
        data[i].imported_taint || (data[i].expression is Some && reads_tainted(
            data[i].expression->0,
            tainted_names(data, i),
        )),
    ensures
        tainted_names(data, n).contains(data[i].name),
{
    if data[i].imported_taint {
        lemma_imported_listed(data, data.len() as int, i);
        lemma_taint_grows(data, 0, n, data[i].name);
    } else {
        let after = tainted_names(data, i + 1);
        assert(after[after.len() - 1] == data[i].name);
        lemma_taint_grows(data, i + 1, n, data[i].name);
    }
}

proof fn lemma_imported_listed(data: Seq<FieldModel>, n: int, i: int)
    requires
        0 <= i < n <= data.len(),
        data[i].imported_taint,
    ensures
        imported_names(data, n).contains(data[i].name),
    decreases n,
{
    let after = imported_names(data, n);
    if i == n - 1 {
        assert(after[after.len() - 1] == data[i].name);
    } else {
        lemma_imported_listed(data, n - 1, i);
        let before = imported_names(data, n - 1);
        let k = before.index_of(data[i].name);
        assert(after[k] == data[i].name);
    }
}

// ---------------------------------------------------------------------------
// All rules
// ---------------------------------------------------------------------------

/// The first problem of a dataset behind its fields.
pub open spec fn late_problem(ds: SyntheticDatasetModel, all: Seq<DatasetEntryModel>) -> Option<
    Seq<PartModel>,
> {
    let n = ds.data.len() as int;
    first_of(
        flatten_problem(ds.data, ds.format, Seq::empty(), n),
        first_of(
            refs_problem(ds, all, n),
            first_of(
                order_problem(ds, n),
                first_of(all_bindings_problem(ds, all, n), quality_stanza_problem(ds)),
            ),
        ),
    )
}

/// The outcome of checking one dataset.
pub open spec fn dataset_check(
    ds: SyntheticDatasetModel,
    totals: Seq<ShareTotalModel>,
    all: Seq<DatasetEntryModel>,
) -> Result<Seq<Seq<char>>, Seq<PartModel>> {
    followed_by(
        followed_by(
            followed_by(
                followed_by(checked(csv_problem(ds), Seq::empty()), row_count_check(ds)),
                checked(first_of(ring_problem(ds), links_problem(ds)), Seq::empty()),
            ),
            include_options_check(ds, all),
        ),
        followed_by(
            dataset_fields_check(ds, totals, all, ds.data.len() as int),
            checked(late_problem(ds, all), Seq::empty()),
        ),
    )
}

fn check_late(dataset: &SyntheticDataset, all: &Vec<DatasetEntry>) -> (r: Result<(), Problem>)
    ensures
        problem_of(r) == late_problem(dataset.model(), entries_model(all@)),
{
    proof {
        reveal_strlit("");
        assert(""@ =~= Seq::<char>::empty());
        assert(dataset.model().data == fields_model(dataset.data@));
    }
    validate_flatten(&dataset.data, dataset.format, "")?;
    validate_dataset_refs(dataset, all)?;
    validate_expression_order(dataset)?;
    validate_collect_bindings(dataset, all)?;
    check_data_quality_stanzas(dataset)
}

/// Checks one dataset against all rules.
pub fn validate_dataset(
    dataset: &SyntheticDataset,
    totals: &Vec<ShareTotal>,
    all: &Vec<DatasetEntry>,
    warnings: &mut Vec<String>,
) -> (r: Result<(), Problem>)
    ensures
        reports(
            r,
            texts(old(warnings)@),
            texts(final(warnings)@),
            dataset_check(dataset.model(), totals_model(totals@), entries_model(all@)),
        ),
{
    let ghost ds = dataset.model();
    let ghost am = entries_model(all@);
    let ghost tm = totals_model(totals@);
    let ghost start = texts(warnings@);
    check_csv_heterogeneous_variant(dataset)?;
    check_row_count_rules(dataset, warnings)?;
    check_import_ring(dataset)?;
    check_links(dataset)?;
    check_include_options(dataset, all, warnings)?;
    check_fields(dataset, totals, all, warnings)?;
    let r = check_late(dataset, all);
    proof {
        let a = row_count_check(ds)->Ok_0;
        let b = include_options_check(ds, am)->Ok_0;
        let c = dataset_fields_check(ds, tm, am, ds.data.len() as int)->Ok_0;
        let none = Seq::<Seq<char>>::empty();
        assert(start + a + b + c =~= start + (none + a + none + b + (c + none)));
    }
    r
}

/// The outcome of checking the first `n` datasets.
pub open spec fn datasets_check(
    all: Seq<DatasetEntryModel>,
    totals: Seq<ShareTotalModel>,
    n: int,
) -> Result<Seq<Seq<char>>, Seq<PartModel>>
    decreases n,
{
    if n <= 0 {
        Ok(Seq::empty())
    } else {
        followed_by(
            datasets_check(all, totals, n - 1),
            dataset_check(all[n - 1].dataset, totals, all),
        )
    }
}

proof fn lemma_datasets_error_stays(
    all: Seq<DatasetEntryModel>,
    totals: Seq<ShareTotalModel>,
    k: int,
    n: int,
)
    requires
        0 <= k <= n,
        datasets_check(all, totals, k) is Err,
    ensures
        datasets_check(all, totals, n) == datasets_check(all, totals, k),
    decreases n - k,
{
    if k < n {
        lemma_datasets_error_stays(all, totals, k, n - 1);
    }
}

/// The outcome of checking all datasets: the first problem, else the warnings.
pub open spec fn validation(all: Seq<DatasetEntryModel>, totals: Seq<ShareTotalModel>) -> Result<
    Seq<Seq<char>>,
    Seq<PartModel>,
> {
    match datasets_check(all, totals, all.len() as int) {
        Err(p) => Err(p),
        Ok(w) => checked(taint_problem(all, all.len() as int), w),
    }
}

/// Checks all datasets: the warnings, or the first problem. `totals` tells, by path, how the
/// shares of alternatives add up.
pub fn validate(datasets: &Vec<DatasetEntry>, totals: &Vec<ShareTotal>) -> (r: Result<
    Vec<String>,
    Problem,
>)
    ensures
        match r {
            Ok(w) => validation(entries_model(datasets@), totals_model(totals@)) == Ok::<
                Seq<Seq<char>>,
                Seq<PartModel>,
            >(texts(w@)),
            Err(p) => validation(entries_model(datasets@), totals_model(totals@)) == Err::<
                Seq<Seq<char>>,
                Seq<PartModel>,
            >(p.model()),
        },
{
    let ghost am = entries_model(datasets@);
    let ghost tm = totals_model(totals@);
    let mut warnings: Vec<String> = Vec::new();
    let mut i: usize = 0;
    assert(texts(warnings@) =~= Seq::empty());
    while i < datasets.len()
        invariant
            i <= datasets.len(),
            am == entries_model(datasets@),
            tm == totals_model(totals@),
            datasets_check(am, tm, i as int) == Ok::<Seq<Seq<char>>, Seq<PartModel>>(
                texts(warnings@),
            ),
        decreases datasets.len() - i,
    {
        assert(am[i as int] == datasets[i as int].model());
        if let Err(p) = validate_dataset(&datasets[i].dataset, totals, datasets, &mut warnings) {
            proof {
                lemma_datasets_error_stays(am, tm, i + 1, am.len() as int);
            }
            return Err(p);
        }
        i += 1;
    }
    check_import_taint(datasets)?;
    Ok(warnings)
}

} // verus!
