//! Rules on how variants and nested fields may be written.
use vstd::prelude::*;

use crate::expand_variants::{is_heterogeneous, mixed};
use crate::message::{
    first_of, join3, join5, problem_of, says, PartModel, Problem,
};
use crate::models::{
    discriminant_tag_column, field_variants_model, fields_model, Field, FieldModel, FieldType,
    FieldVariant, FieldVariantModel, FlattenStrategy, Format, SyntheticDataset,
    SyntheticDatasetModel,
};
use crate::text::{decimal, decimal_text, holds_text, same_text, texts};
use crate::validate_field::{fail_field, field_says};

verus! {

/// The path of a field below `prefix`.
pub open spec fn path_below(prefix: Seq<char>, name: Seq<char>) -> Seq<char> {
    if prefix.len() == 0 {
        name
    } else {
        prefix + "."@ + name
    }
}

fn join_path(prefix: &str, name: &str) -> (r: String)
    ensures
        r@ == path_below(prefix@, name@),
{
    if prefix.unicode_len() == 0 {
        name.to_owned()
    } else {
        join3(prefix, ".", name)
    }
}

// ---------------------------------------------------------------------------
// Variants of more than one type
// ---------------------------------------------------------------------------

/// The path of the first field, from `i` on and inside objects, whose alternatives are of more
/// than one type.
pub open spec fn first_mixed(fields: Seq<FieldModel>, prefix: Seq<char>, i: int) -> Option<
    Seq<char>,
>
    decreases fields, fields.len() - i,
{
    if i < 0 || i >= fields.len() {
        None
    } else {
        let f = fields[i];
        let path = path_below(prefix, f.name);
        if f.field_type == Some(FieldType::Variant) && mixed(f.variants) {
            Some(path)
        } else if f.field_type == Some(FieldType::Object) && first_mixed(f.fields, path, 0) is Some {
            first_mixed(f.fields, path, 0)
        } else {
            first_mixed(fields, prefix, i + 1)
        }
    }
}

/// Finds the first field, inside objects too, whose alternatives are of more than one type.
pub fn first_heterogeneous_variant(fields: &Vec<Field>, prefix: &str) -> (r: Option<String>)
    ensures
        match r {
            Some(p) => first_mixed(fields_model(fields@), prefix@, 0) == Some(p@),
            None => first_mixed(fields_model(fields@), prefix@, 0) is None,
        },
    decreases fields,
{
    let ghost fm = fields_model(fields@);
    let mut i: usize = 0;
    while i < fields.len()
        invariant
            i <= fields.len(),
            fm == fields_model(fields@),
            first_mixed(fm, prefix@, 0) == first_mixed(fm, prefix@, i as int),
        decreases fields.len() - i,
    {
        let f = &fields[i];
        assert(fm[i as int] == f.model());
        assert(f.model().variants == field_variants_model(f.variants@));
        assert(f.model().fields == fields_model(f.fields@));
        let path = join_path(prefix, &f.name);
        match f.field_type {
            Some(FieldType::Variant) => {
                if is_heterogeneous(&f.variants) {
                    return Some(path);
                }
            },
            Some(FieldType::Object) => {
                if let Some(p) = first_heterogeneous_variant(&f.fields, &path) {
                    return Some(p);
                }
            },
            _ => {},
        }
        i += 1;
    }
    None
}

/// The problem of a flat file with a field whose alternatives are of more than one type.
pub open spec fn csv_problem(ds: SyntheticDatasetModel) -> Option<Seq<PartModel>> {
    let found = first_mixed(ds.data, Seq::empty(), 0);
    if ds.format is Csv && found is Some {
        says(
            "dataset '"@ + ds.name + "': field '"@ + found->0
                + "' is a heterogeneous (multi-type) variant, which becomes a nested union column that CSV cannot represent. Use `format: parquet`, `json`, or `jsonl` for this dataset."@,
        )
    } else {
        None
    }
}

/// Checks that a flat file has no field whose alternatives are of more than one type.
pub fn check_csv_heterogeneous_variant(dataset: &SyntheticDataset) -> (r: Result<(), Problem>)
    ensures
        problem_of(r) == csv_problem(dataset.model()),
{
    proof {
        reveal_strlit("");
        assert(""@ =~= Seq::<char>::empty());
    }
    if matches!(dataset.format, Format::Csv) {
        if let Some(path) = first_heterogeneous_variant(&dataset.data, "") {
            return crate::message::fail(
                join5(
                    "dataset '",
                    &dataset.name,
                    "': field '",
                    &path,
                    "' is a heterogeneous (multi-type) variant, which becomes a nested union column that CSV cannot represent. Use `format: parquet`, `json`, or `jsonl` for this dataset.",
                ),
            );
        }
    }
    Ok(())
}

// ---------------------------------------------------------------------------
// Flattening
// ---------------------------------------------------------------------------

/// The names of the first `n` fields.
pub open spec fn names_of(fields: Seq<FieldModel>, n: int) -> Seq<Seq<char>>
    decreases n,
{
    if n <= 0 {
        Seq::empty()
    } else {
        names_of(fields, n - 1).push(fields[n - 1].name)
    }
}

/// The names of the first `n` fields, each behind a label.
pub open spec fn labelled_names(label: Seq<char>, fields: Seq<FieldModel>, n: int) -> Seq<Seq<char>>
    decreases n,
{
    if n <= 0 {
        Seq::empty()
    } else {
        labelled_names(label, fields, n - 1).push(label + "_"@ + fields[n - 1].name)
    }
}

/// The label of alternative `i` of a field.
pub open spec fn case_label(name: Seq<char>, c: FieldVariantModel, i: int) -> Seq<char> {
    match c.name {
        Some(l) => l,
        None => name + "_"@ + decimal_text(i as nat),
    }
}

/// The columns that alternative `i` of a field yields.
pub open spec fn case_names(
    name: Seq<char>,
    c: FieldVariantModel,
    i: int,
    strategy: FlattenStrategy,
) -> Seq<Seq<char>> {
    if c.fields.len() == 0 {
        seq![case_label(name, c, i)]
    } else if strategy is Prefixed {
        labelled_names(case_label(name, c, i), c.fields, c.fields.len() as int)
    } else {
        names_of(c.fields, c.fields.len() as int)
    }
}

/// The columns that the first `n` alternatives of a field yield.
pub open spec fn all_case_names(
    name: Seq<char>,
    variants: Seq<FieldVariantModel>,
    strategy: FlattenStrategy,
    n: int,
) -> Seq<Seq<char>>
    decreases n,
{
    if n <= 0 {
        Seq::empty()
    } else {
        all_case_names(name, variants, strategy, n - 1) + case_names(
            name,
            variants[n - 1],
            n - 1,
            strategy,
        )
    }
}

/// The columns that a flattened field yields.
pub open spec fn pulled_names(f: FieldModel, strategy: FlattenStrategy) -> Seq<Seq<char>> {
    match f.field_type {
        Some(FieldType::Object) => names_of(f.fields, f.fields.len() as int),
        Some(FieldType::Variant) => all_case_names(
            f.name,
            f.variants,
            strategy,
            f.variants.len() as int,
        ),
        _ => Seq::empty(),
    }
}

/// How many sources those columns come from.
pub open spec fn source_count(f: FieldModel) -> int {
    match f.field_type {
        Some(FieldType::Object) => 1,
        Some(FieldType::Variant) => f.variants.len() as int,
        _ => 0,
    }
}

/// A field other than field `i` has the given name.
pub open spec fn sibling(fields: Seq<FieldModel>, i: int, name: Seq<char>) -> bool {
    exists|j: int| 0 <= j < fields.len() && j != i && (#[trigger] fields[j]).name == name
}

/// The first of the first `n` names that a sibling of field `i` has.
pub open spec fn first_taken(
    names: Seq<Seq<char>>,
    fields: Seq<FieldModel>,
    i: int,
    n: int,
) -> Option<int>
    decreases n,
{
    if n <= 0 {
        None
    } else {
        match first_taken(names, fields, i, n - 1) {
            Some(k) => Some(k),
            None => if sibling(fields, i, names[n - 1]) {
                Some(n - 1)
            } else {
                None
            },
        }
    }
}

/// The first of the first `n` names that stands there before.
pub open spec fn first_repeat(names: Seq<Seq<char>>, n: int) -> Option<int>
    decreases n,
{
    if n <= 0 {
        None
    } else {
        match first_repeat(names, n - 1) {
            Some(k) => Some(k),
            None => if names.subrange(0, n - 1).contains(names[n - 1]) {
                Some(n - 1)
            } else {
                None
            },
        }
    }
}

/// A format with columns instead of keys per row.
pub open spec fn columnar(format: Format) -> bool {
    !(format is Json) && !(format is Jsonl)
}

/// The layout of the cases of a flattened field.
pub open spec fn layout(f: FieldModel, format: Format) -> FlattenStrategy {
    if columnar(format) {
        match f.flatten_strategy {
            Some(s) => s,
            None => FlattenStrategy::Superset,
        }
    } else {
        FlattenStrategy::Superset
    }
}

/// The problem of the names that flattening field `i` yields.
pub open spec fn pulled_names_problem(
    fields: Seq<FieldModel>,
    i: int,
    format: Format,
    path: Seq<char>,
) -> Option<Seq<PartModel>> {
    let f = fields[i];
    let names = pulled_names(f, layout(f, format));
    let taken = first_taken(names, fields, i, names.len() as int);
    let repeat = first_repeat(names, names.len() as int);
    let tag = f.name + "_case"@;
    if taken is Some {
        field_says(
            path,
            "flattening pulls up `"@ + names[taken->0]
                + "`, which collides with a sibling field of the same name — rename one of them."@,
        )
    } else if columnar(format) && source_count(f) > 1 && repeat is Some {
        field_says(
            path,
            "flatten pulls up `"@ + names[repeat->0]
                + "` from more than one variant case into a `"@ + format.label()
                + "` superset, which collides. Use `flatten_strategy: prefixed`, `format: json`/`jsonl`, or rename the colliding case fields."@,
        )
    } else if columnar(format) && layout(f, format) is Discriminant && (sibling(fields, i, tag)
        || names.contains(tag)) {
        field_says(
            path,
            "the `discriminant` tag column `"@ + tag
                + "` collides with an existing field — rename the colliding field."@,
        )
    } else {
        None
    }
}

/// The problem of flattening field `i`.
pub open spec fn flatten_field_problem(
    fields: Seq<FieldModel>,
    i: int,
    format: Format,
    prefix: Seq<char>,
) -> Option<Seq<PartModel>> {
    let f = fields[i];
    let path = path_below(prefix, f.name);
    if f.flatten_strategy is Some && !(f.flatten && f.field_type == Some(FieldType::Variant)) {
        field_says(path, "`flatten_strategy` is only valid on a `flatten` variant field"@)
    } else if !f.flatten {
        None
    } else if f.field_type != Some(FieldType::Object) && f.field_type != Some(FieldType::Variant) {
        field_says(path, "`flatten` is only valid on `object` or `variant` fields"@)
    } else if f.name.len() == 0 {
        field_says(path, "a `flatten` field must have a `name`"@)
    } else if prefix.len() > 0 {
        field_says(
            path,
            "`flatten` is only supported on a top-level field for now (nested flatten not yet implemented)"@,
        )
    } else {
        pulled_names_problem(fields, i, format, path)
    }
}

/// The first problem of flattening the first `n` fields, inside objects too.
pub open spec fn flatten_problem(
    fields: Seq<FieldModel>,
    format: Format,
    prefix: Seq<char>,
    n: int,
) -> Option<Seq<PartModel>>
    decreases fields, n,
{
    if n <= 0 || n > fields.len() {
        None
    } else {
        first_of(
            flatten_problem(fields, format, prefix, n - 1),
            first_of(
                flatten_field_problem(fields, n - 1, format, prefix),
                if fields[n - 1].field_type == Some(FieldType::Object) {
                    flatten_problem(
                        fields[n - 1].fields,
                        format,
                        path_below(prefix, fields[n - 1].name),
                        fields[n - 1].fields.len() as int,
                    )
                } else {
                    None
                },
            ),
        )
    }
}

proof fn lemma_flatten_stays(
    fields: Seq<FieldModel>,
    format: Format,
    prefix: Seq<char>,
    k: int,
    n: int,
)
    requires
        0 <= k <= n <= fields.len(),
        flatten_problem(fields, format, prefix, k) is Some,
    ensures
        flatten_problem(fields, format, prefix, n) == flatten_problem(fields, format, prefix, k),
    decreases n - k,
{
    if k < n {
        lemma_flatten_stays(fields, format, prefix, k, n - 1);
    }
}

fn collect_names(fields: &Vec<Field>, out: &mut Vec<String>)
    ensures
        texts(final(out)@) == texts(old(out)@) + names_of(
            fields_model(fields@),
            fields@.len() as int,
        ),
{
    let ghost fm = fields_model(fields@);
    let ghost start = texts(out@);
    let mut i: usize = 0;
    assert(texts(out@) =~= start + names_of(fm, 0));
    while i < fields.len()
        invariant
            i <= fields.len(),
            fm == fields_model(fields@),
            texts(out@) == start + names_of(fm, i as int),
        decreases fields.len() - i,
    {
        assert(fm[i as int] == fields[i as int].model());
        let ghost before = out@;
        out.push(fields[i].name.clone());
        assert(texts(out@) =~= texts(before).push(fm[i as int].name));
        i += 1;
        assert(texts(out@) =~= start + names_of(fm, i as int));
    }
}

fn collect_labelled_names(label: &str, fields: &Vec<Field>, out: &mut Vec<String>)
    ensures
        texts(final(out)@) == texts(old(out)@) + labelled_names(
            label@,
            fields_model(fields@),
            fields@.len() as int,
        ),
{
    let ghost fm = fields_model(fields@);
    let ghost start = texts(out@);
    let mut i: usize = 0;
    assert(texts(out@) =~= start + labelled_names(label@, fm, 0));
    while i < fields.len()
        invariant
            i <= fields.len(),
            fm == fields_model(fields@),
            texts(out@) == start + labelled_names(label@, fm, i as int),
        decreases fields.len() - i,
    {
        assert(fm[i as int] == fields[i as int].model());
        let ghost before = out@;
        let name = join3(label, "_", &fields[i].name);
        out.push(name);
        assert(texts(out@) =~= texts(before).push(name@));
        i += 1;
        assert(texts(out@) =~= start + labelled_names(label@, fm, i as int));
    }
}

fn label_of_case(name: &str, c: &FieldVariant, i: usize) -> (r: String)
    ensures
        r@ == case_label(name@, c.model(), i as int),
{
    match &c.name {
        Some(l) => l.clone(),
        None => {
            let d = decimal(i as u64);
            join3(name, "_", &d)
        },
    }
}

/// The columns that a flattened field yields.
pub fn flatten_pullup_groups(field: &Field, strategy: FlattenStrategy) -> (r: Vec<String>)
    ensures
        texts(r@) == pulled_names(field.model(), strategy),
{
    let ghost f = field.model();
    let mut out: Vec<String> = Vec::new();
    assert(texts(out@) =~= Seq::empty());
    match field.field_type {
        Some(FieldType::Object) => {
            assert(f.fields == fields_model(field.fields@));
            collect_names(&field.fields, &mut out);
            assert(texts(out@) =~= pulled_names(f, strategy));
        },
        Some(FieldType::Variant) => {
            let ghost vm = field_variants_model(field.variants@);
            assert(f.variants == vm);
            let mut i: usize = 0;
            while i < field.variants.len()
                invariant
                    i <= field.variants.len(),
                    vm == field_variants_model(field.variants@),
                    texts(out@) == all_case_names(field.name@, vm, strategy, i as int),
                decreases field.variants.len() - i,
            {
                let c = &field.variants[i];
                assert(vm[i as int] == c.model());
                assert(c.model().fields == fields_model(c.fields@));
                let label = label_of_case(&field.name, c, i);
                let ghost before = out@;
                if c.fields.len() == 0 {
                    out.push(label);
                    assert(texts(out@) =~= texts(before) + seq![label@]);
                } else if matches!(strategy, FlattenStrategy::Prefixed) {
                    collect_labelled_names(&label, &c.fields, &mut out);
                } else {
                    collect_names(&c.fields, &mut out);
                }
                i += 1;
            }
        },
        _ => {},
    }
    out
}

fn has_sibling(fields: &Vec<Field>, i: usize, name: &str) -> (r: bool)
    ensures
        r == sibling(fields_model(fields@), i as int, name@),
{
    let ghost fm = fields_model(fields@);
    let mut j: usize = 0;
    while j < fields.len()
        invariant
            j <= fields.len(),
            fm == fields_model(fields@),
            forall|a: int| 0 <= a < j && a != i ==> (#[trigger] fm[a]).name != name@,
        decreases fields.len() - j,
    {
        assert(fm[j as int] == fields[j as int].model());
        if j != i && same_text(&fields[j].name, name) {
            return true;
        }
        j += 1;
    }
    false
}

proof fn lemma_taken_stays(
    names: Seq<Seq<char>>,
    fields: Seq<FieldModel>,
    i: int,
    k: int,
    n: int,
)
    requires
        0 <= k <= n,
        first_taken(names, fields, i, k) is Some,
    ensures
        first_taken(names, fields, i, n) == first_taken(names, fields, i, k),
    decreases n - k,
{
    if k < n {
        lemma_taken_stays(names, fields, i, k, n - 1);
    }
}

fn find_taken(names: &Vec<String>, fields: &Vec<Field>, i: usize) -> (r: Option<usize>)
    ensures
        match r {
            Some(k) => k < names.len() && first_taken(
                texts(names@),
                fields_model(fields@),
                i as int,
                names@.len() as int,
            ) == Some(k as int),
            None => first_taken(
                texts(names@),
                fields_model(fields@),
                i as int,
                names@.len() as int,
            ) is None,
        },
{
    let ghost nm = texts(names@);
    let ghost fm = fields_model(fields@);
    let mut k: usize = 0;
    while k < names.len()
        invariant
            k <= names.len(),
            nm == texts(names@),
            fm == fields_model(fields@),
            first_taken(nm, fm, i as int, k as int) is None,
        decreases names.len() - k,
    {
        assert(nm[k as int] == names[k as int]@);
        if has_sibling(fields, i, &names[k]) {
            proof {
                lemma_taken_stays(nm, fm, i as int, k + 1, names@.len() as int);
            }
            return Some(k);
        }
        k += 1;
    }
    None
}

proof fn lemma_repeat_stays(names: Seq<Seq<char>>, k: int, n: int)
    requires
        0 <= k <= n,
        first_repeat(names, k) is Some,
    ensures
        first_repeat(names, n) == first_repeat(names, k),
    decreases n - k,
{
    if k < n {
        lemma_repeat_stays(names, k, n - 1);
    }
}

pub(crate) fn find_repeat(names: &Vec<String>) -> (r: Option<usize>)
    ensures
        match r {
            Some(k) => k < names.len() && first_repeat(texts(names@), names@.len() as int) == Some(
                k as int,
            ),
            None => first_repeat(texts(names@), names@.len() as int) is None,
        },
{
    let ghost nm = texts(names@);
    let mut k: usize = 0;
    while k < names.len()
        invariant
            k <= names.len(),
            nm == texts(names@),
            first_repeat(nm, k as int) is None,
        decreases names.len() - k,
    {
        let ghost front = nm.subrange(0, k as int);
        let mut seen: bool = false;
        let mut j: usize = 0;
        while j < k
            invariant
                j <= k < names.len(),
                nm == texts(names@),
                front == nm.subrange(0, k as int),
                seen == exists|a: int| 0 <= a < j && #[trigger] front[a] == nm[k as int],
            decreases k - j,
        {
            assert(nm[k as int] == names[k as int]@);
            assert(front[j as int] == names[j as int]@);
            if same_text(&names[j], &names[k]) {
                seen = true;
            }
            j += 1;
        }
        assert(seen == front.contains(nm[k as int]));
        if seen {
            proof {
                lemma_repeat_stays(nm, k + 1, names@.len() as int);
            }
            return Some(k);
        }
        k += 1;
    }
    None
}

fn is_columnar(format: Format) -> (r: bool)
    ensures
        r == columnar(format),
{
    !matches!(format, Format::Json) && !matches!(format, Format::Jsonl)
}

fn check_pulled_names(fields: &Vec<Field>, i: usize, format: Format, path: &str) -> (r: Result<
    (),
    Problem,
>)
    requires
        i < fields.len(),
    ensures
        problem_of(r) == pulled_names_problem(fields_model(fields@), i as int, format, path@),
{
    let ghost fm = fields_model(fields@);
    let f = &fields[i];
    assert(fm[i as int] == f.model());
    assert(f.model().variants == field_variants_model(f.variants@));
    let flat = is_columnar(format);
    let strategy = if flat {
        match f.flatten_strategy {
            Some(s) => s,
            None => FlattenStrategy::Superset,
        }
    } else {
        FlattenStrategy::Superset
    };
    let names = flatten_pullup_groups(f, strategy);
    let ghost nm = texts(names@);
    if let Some(k) = find_taken(&names, fields, i) {
        assert(nm[k as int] == names[k as int]@);
        let text = join3(
            "flattening pulls up `",
            &names[k],
            "`, which collides with a sibling field of the same name — rename one of them.",
        );
        return fail_field(path, &text);
    }
    let many: bool = match f.field_type {
        Some(FieldType::Variant) => f.variants.len() > 1,
        _ => false,
    };
    if flat && many {
        if let Some(k) = find_repeat(&names) {
            assert(nm[k as int] == names[k as int]@);
            let text = join5(
                "flatten pulls up `",
                &names[k],
                "` from more than one variant case into a `",
                format.as_str(),
                "` superset, which collides. Use `flatten_strategy: prefixed`, `format: json`/`jsonl`, or rename the colliding case fields.",
            );
            return fail_field(path, &text);
        }
    }
    if flat && matches!(strategy, FlattenStrategy::Discriminant) {
        let tag = discriminant_tag_column(&f.name);
        if has_sibling(fields, i, &tag) || holds_text(&names, &tag) {
            let text = join3(
                "the `discriminant` tag column `",
                &tag,
                "` collides with an existing field — rename the colliding field.",
            );
            return fail_field(path, &text);
        }
    }
    Ok(())
}

fn check_flatten_field(fields: &Vec<Field>, i: usize, format: Format, prefix: &str) -> (r: Result<
    (),
    Problem,
>)
    requires
        i < fields.len(),
    ensures
        problem_of(r) == flatten_field_problem(fields_model(fields@), i as int, format, prefix@),
{
    let f = &fields[i];
    assert(fields_model(fields@)[i as int] == f.model());
    let path = join_path(prefix, &f.name);
    if f.flatten_strategy.is_some() && !(f.flatten && matches!(
        f.field_type,
        Some(FieldType::Variant)
    )) {
        return fail_field(&path, "`flatten_strategy` is only valid on a `flatten` variant field");
    }
    if !f.flatten {
        return Ok(());
    }
    if !matches!(f.field_type, Some(FieldType::Object)) && !matches!(
        f.field_type,
        Some(FieldType::Variant)
    ) {
        return fail_field(&path, "`flatten` is only valid on `object` or `variant` fields");
    }
    if f.name.as_str().unicode_len() == 0 {
        return fail_field(&path, "a `flatten` field must have a `name`");
    }
    if prefix.unicode_len() > 0 {
        return fail_field(
            &path,
            "`flatten` is only supported on a top-level field for now (nested flatten not yet implemented)",
        );
    }
    check_pulled_names(fields, i, format, &path)
}

/// Checks where fields are flattened, and that the names this yields do not collide.
pub fn validate_flatten(fields: &Vec<Field>, format: Format, prefix: &str) -> (r: Result<
    (),
    Problem,
>)
    ensures
        problem_of(r) == flatten_problem(
            fields_model(fields@),
            format,
            prefix@,
            fields@.len() as int,
        ),
    decreases fields,
{
    let ghost fm = fields_model(fields@);
    let mut i: usize = 0;
    while i < fields.len()
        invariant
            i <= fields.len(),
            fm == fields_model(fields@),
            flatten_problem(fm, format, prefix@, i as int) is None,
        decreases fields.len() - i,
    {
        let f = &fields[i];
        assert(fm[i as int] == f.model());
        assert(f.model().fields == fields_model(f.fields@));
        if let Err(p) = check_flatten_field(fields, i, format, prefix) {
            proof {
                lemma_flatten_stays(fm, format, prefix@, i + 1, fm.len() as int);
            }
            return Err(p);
        }
        if matches!(f.field_type, Some(FieldType::Object)) {
            let path = join_path(prefix, &f.name);
            if let Err(p) = validate_flatten(&f.fields, format, &path) {
                proof {
                    lemma_flatten_stays(fm, format, prefix@, i + 1, fm.len() as int);
                }
                return Err(p);
            }
        }
        i += 1;
    }
    Ok(())
}

/// Nothing is flattened below the top level of a dataset that passes.
pub proof fn law_nested_fields_are_not_flattened(
    fields: Seq<FieldModel>,
    format: Format,
    prefix: Seq<char>,
    n: int,
    i: int,
)
    requires
        0 <= i < n <= fields.len(),
        prefix.len() > 0,
        flatten_problem(fields, format, prefix, n) is None,
    ensures
        !fields[i].flatten,
    decreases n,
{
    if i < n - 1 {
        law_nested_fields_are_not_flattened(fields, format, prefix, n - 1, i);
    }
}

} // verus!
