//! Rules on declared degradation.
use vstd::prelude::*;

use crate::message::{
    fail, fail_measured, first_of, join3, join5, measured, problem_of, says, PartModel, Problem,
};
use crate::models::{
    fields_model, outputs_model, Corruptions, DataQuality, DataQualityModel, Field, FieldModel,
    FieldType, Num, OutputModel, SyntheticDataset, SyntheticDatasetModel, ONE_KEY,
};

verus! {

/// The problem of a rate that is no probability.
pub open spec fn rate_problem(dataset: Seq<char>, name: Seq<char>, rate: Option<Num>) -> Option<
    Seq<PartModel>,
> {
    match rate {
        Some(v) => if 0 <= v.key <= ONE_KEY {
            None
        } else {
            Some(
                measured(
                    "dataset '"@ + dataset + "': quality field '"@ + name
                        + "' must be between 0.0 and 1.0, got "@,
                    v,
                ),
            )
        },
        None => None,
    }
}

fn check_rate(dataset: &str, name: &str, rate: Option<Num>) -> (r: Result<(), Problem>)
    ensures
        problem_of(r) == rate_problem(dataset@, name@, rate),
{
    if let Some(v) = rate {
        if v.key < 0 || v.key > ONE_KEY {
            return fail_measured(
                join5(
                    "dataset '",
                    dataset,
                    "': quality field '",
                    name,
                    "' must be between 0.0 and 1.0, got ",
                ),
                v,
            );
        }
    }
    Ok(())
}

/// The problem of what only an output may declare.
pub open spec fn output_only_problem(context: Seq<char>, q: DataQualityModel) -> Option<
    Seq<PartModel>,
> {
    if q.duplication is Some {
        says(
            "field '"@ + context
                + "': `quality.duplication` is only valid on an output block, not on a field"@,
        )
    } else if q.missing is Some {
        says(
            "field '"@ + context
                + "': `quality.missing` is only valid on an output block, not on a field"@,
        )
    } else {
        None
    }
}

/// The problem of an output's degradation beside its column rates.
pub open spec fn output_rate_problem(
    dataset: Seq<char>,
    context: Seq<char>,
    q: DataQualityModel,
) -> Option<Seq<PartModel>> {
    first_of(
        rate_problem(dataset, "duplication"@, q.duplication),
        first_of(
            rate_problem(dataset, "missing"@, q.missing),
            if q.default_values is Some {
                says(
                    "dataset '"@ + dataset + "' output '"@ + context
                        + "': `quality.default_values` is only valid on a field, not on the output block"@,
                )
            } else if q.defaults_mode is Some {
                says(
                    "dataset '"@ + dataset + "' output '"@ + context
                        + "': `quality.defaults_mode` is only valid on a field, not on the output block"@,
                )
            } else {
                None
            },
        ),
    )
}

/// The problem of a rate of corruption.
pub open spec fn corruption_problem(dataset: Seq<char>, c: Corruptions) -> Option<Seq<PartModel>> {
    first_of(
        rate_problem(dataset, "corruptions.character_deletion"@, c.character_deletion),
        first_of(
            rate_problem(dataset, "corruptions.character_insertion"@, c.character_insertion),
            first_of(
                rate_problem(dataset, "corruptions.truncation"@, c.truncation),
                first_of(
                    rate_problem(dataset, "corruptions.encoding"@, c.encoding),
                    first_of(
                        rate_problem(dataset, "corruptions.noise"@, c.noise),
                        rate_problem(dataset, "corruptions.day_shift"@, c.day_shift),
                    ),
                ),
            ),
        ),
    )
}

/// The problem of a declared degradation, on an output or on a field.
pub open spec fn quality_problem(
    dataset: Seq<char>,
    context: Seq<char>,
    q: DataQualityModel,
    on_output: bool,
) -> Option<Seq<PartModel>> {
    first_of(
        rate_problem(dataset, "nulls"@, q.nulls),
        first_of(
            rate_problem(dataset, "default_rate"@, q.default_rate),
            first_of(
                if on_output {
                    output_rate_problem(dataset, context, q)
                } else {
                    output_only_problem(context, q)
                },
                match q.corruptions {
                    Some(c) => corruption_problem(dataset, c),
                    None => None,
                },
            ),
        ),
    )
}

/// Checks a declared degradation, on an output or on a field.
pub fn validate_data_quality(dataset_name: &str, ctx: &str, q: &DataQuality, is_output_level: bool)
    -> (r: Result<(), Problem>)
    ensures
        problem_of(r) == quality_problem(dataset_name@, ctx@, q.model(), is_output_level),
{
    check_rate(dataset_name, "nulls", q.nulls)?;
    check_rate(dataset_name, "default_rate", q.default_rate)?;
    if is_output_level {
        check_rate(dataset_name, "duplication", q.duplication)?;
        check_rate(dataset_name, "missing", q.missing)?;
        if q.default_values.is_some() {
            return fail(
                join5(
                    "dataset '",
                    dataset_name,
                    "' output '",
                    ctx,
                    "': `quality.default_values` is only valid on a field, not on the output block",
                ),
            );
        }
        if q.defaults_mode.is_some() {
            return fail(
                join5(
                    "dataset '",
                    dataset_name,
                    "' output '",
                    ctx,
                    "': `quality.defaults_mode` is only valid on a field, not on the output block",
                ),
            );
        }
    } else {
        if q.duplication.is_some() {
            return fail(
                join3(
                    "field '",
                    ctx,
                    "': `quality.duplication` is only valid on an output block, not on a field",
                ),
            );
        }
        if q.missing.is_some() {
            return fail(
                join3(
                    "field '",
                    ctx,
                    "': `quality.missing` is only valid on an output block, not on a field",
                ),
            );
        }
    }
    if let Some(c) = &q.corruptions {
        check_rate(dataset_name, "corruptions.character_deletion", c.character_deletion)?;
        check_rate(dataset_name, "corruptions.character_insertion", c.character_insertion)?;
        check_rate(dataset_name, "corruptions.truncation", c.truncation)?;
        check_rate(dataset_name, "corruptions.encoding", c.encoding)?;
        check_rate(dataset_name, "corruptions.noise", c.noise)?;
        check_rate(dataset_name, "corruptions.day_shift", c.day_shift)?;
    }
    Ok(())
}

/// The problem of a corruption that a field's type rules out.
pub open spec fn unfit(path: Seq<char>, mode: Seq<char>, t: FieldType) -> Option<Seq<PartModel>> {
    says(
        "field '"@ + path + "': `corruptions."@ + mode + "` is not applicable to "@ + t.label()
            + " fields"@,
    )
}

/// The first corruption that a field's type rules out: characters are for texts, noise for
/// numbers, and shifts for dates.
pub open spec fn corruption_mode_problem(path: Seq<char>, c: Corruptions, t: FieldType) -> Option<
    Seq<PartModel>,
> {
    if !(t is String) && c.character_deletion is Some {
        unfit(path, "character_deletion"@, t)
    } else if !(t is String) && c.character_insertion is Some {
        unfit(path, "character_insertion"@, t)
    } else if !(t is String) && c.truncation is Some {
        unfit(path, "truncation"@, t)
    } else if !(t is String) && c.encoding is Some {
        unfit(path, "encoding"@, t)
    } else if !(t is Number) && c.noise is Some {
        unfit(path, "noise"@, t)
    } else if !(t is Date) && !(t is DateTime) && c.day_shift is Some {
        unfit(path, "day_shift"@, t)
    } else {
        None
    }
}

fn fail_unfit(path: &str, mode: &str, t: FieldType) -> (r: Result<(), Problem>)
    ensures
        problem_of(r) == unfit(path@, mode@, t),
{
    let head = join5("field '", path, "': `corruptions.", mode, "` is not applicable to ");
    fail(join3(&head, t.as_str(), " fields"))
}

/// Checks that the corruptions of a field fit its type.
pub fn validate_corruption_modes(field_path: &str, c: &Corruptions, ft: FieldType) -> (r: Result<
    (),
    Problem,
>)
    ensures
        problem_of(r) == corruption_mode_problem(field_path@, *c, ft),
{
    let is_string = matches!(ft, FieldType::String);
    let is_number = matches!(ft, FieldType::Number);
    let is_temporal = matches!(ft, FieldType::Date) || matches!(ft, FieldType::DateTime);
    if !is_string {
        if c.character_deletion.is_some() {
            return fail_unfit(field_path, "character_deletion", ft);
        }
        if c.character_insertion.is_some() {
            return fail_unfit(field_path, "character_insertion", ft);
        }
        if c.truncation.is_some() {
            return fail_unfit(field_path, "truncation", ft);
        }
        if c.encoding.is_some() {
            return fail_unfit(field_path, "encoding", ft);
        }
    }
    if !is_number && c.noise.is_some() {
        return fail_unfit(field_path, "noise", ft);
    }
    if !is_temporal && c.day_shift.is_some() {
        return fail_unfit(field_path, "day_shift", ft);
    }
    Ok(())
}

/// Some output declares degradation.
pub open spec fn degrades(outputs: Seq<OutputModel>) -> bool {
    exists|i: int| 0 <= i < outputs.len() && (#[trigger] outputs[i]).quality is Some
}

/// The first problem of the first `n` outputs.
pub open spec fn outputs_problem(dataset: Seq<char>, outputs: Seq<OutputModel>, n: int) -> Option<
    Seq<PartModel>,
>
    decreases n,
{
    if n <= 0 {
        None
    } else {
        first_of(
            outputs_problem(dataset, outputs, n - 1),
            match outputs[n - 1].quality {
                Some(q) => quality_problem(dataset, outputs[n - 1].file, q, true),
                None => None,
            },
        )
    }
}

/// The problem of a field's own degradation; it needs an output that declares some.
pub open spec fn own_quality_problem(dataset: Seq<char>, f: FieldModel, output_degrades: bool) -> Option<
    Seq<PartModel>,
> {
    let path = dataset + "."@ + f.name;
    match f.quality {
        None => None,
        Some(q) => first_of(
            quality_problem(dataset, path, q, false),
            if !output_degrades {
                says(
                    "field '"@ + path
                        + "' has a `quality` stanza but the dataset output block has no `quality` stanza"@,
                )
            } else {
                match q.corruptions {
                    Some(c) => corruption_mode_problem(
                        path,
                        c,
                        match f.field_type {
                            Some(t) => t,
                            None => FieldType::String,
                        },
                    ),
                    None => None,
                }
            },
        ),
    }
}

/// The first problem of the first `n` fields' own degradation.
pub open spec fn own_qualities_problem(
    dataset: Seq<char>,
    fields: Seq<FieldModel>,
    output_degrades: bool,
    n: int,
) -> Option<Seq<PartModel>>
    decreases n,
{
    if n <= 0 {
        None
    } else {
        first_of(
            own_qualities_problem(dataset, fields, output_degrades, n - 1),
            own_quality_problem(dataset, fields[n - 1], output_degrades),
        )
    }
}

/// The first problem of the degradation that a dataset declares.
pub open spec fn quality_stanza_problem(ds: SyntheticDatasetModel) -> Option<Seq<PartModel>> {
    let outputs = ds.all_outputs();
    first_of(
        outputs_problem(ds.name, outputs, outputs.len() as int),
        own_qualities_problem(ds.name, ds.data, degrades(outputs), ds.data.len() as int),
    )
}

proof fn lemma_outputs_problem_stays(
    dataset: Seq<char>,
    outputs: Seq<OutputModel>,
    k: int,
    n: int,
)
    requires
        0 <= k <= n,
        outputs_problem(dataset, outputs, k) is Some,
    ensures
        outputs_problem(dataset, outputs, n) == outputs_problem(dataset, outputs, k),
    decreases n - k,
{
    if k < n {
        lemma_outputs_problem_stays(dataset, outputs, k, n - 1);
    }
}

proof fn lemma_own_problem_stays(
    dataset: Seq<char>,
    fields: Seq<FieldModel>,
    d: bool,
    k: int,
    n: int,
)
    requires
        0 <= k <= n,
        own_qualities_problem(dataset, fields, d, k) is Some,
    ensures
        own_qualities_problem(dataset, fields, d, n) == own_qualities_problem(
            dataset,
            fields,
            d,
            k,
        ),
    decreases n - k,
{
    if k < n {
        lemma_own_problem_stays(dataset, fields, d, k, n - 1);
    }
}

fn check_own_quality(dataset: &str, field: &Field, output_degrades: bool) -> (r: Result<
    (),
    Problem,
>)
    ensures
        problem_of(r) == own_quality_problem(dataset@, field.model(), output_degrades),
{
    if let Some(q) = &field.quality {
        assert(field.model().quality == Some(q.model()));
        let path = join3(dataset, ".", &field.name);
        validate_data_quality(dataset, &path, q, false)?;
        if !output_degrades {
            return fail(
                join3(
                    "field '",
                    &path,
                    "' has a `quality` stanza but the dataset output block has no `quality` stanza",
                ),
            );
        }
        if let Some(c) = &q.corruptions {
            let t = match field.field_type {
                Some(t) => t,
                None => FieldType::String,
            };
            return validate_corruption_modes(&path, c, t);
        }
    }
    Ok(())
}

/// Checks the degradation that the outputs and fields of a dataset declare.
pub fn check_data_quality_stanzas(dataset: &SyntheticDataset) -> (r: Result<(), Problem>)
    ensures
        problem_of(r) == quality_stanza_problem(dataset.model()),
{
    let outputs = dataset.resolved_outputs();
    let ghost om = outputs_model(outputs@);
    let ghost name = dataset.name@;
    let mut degraded: bool = false;
    let mut i: usize = 0;
    while i < outputs.len()
        invariant
            i <= outputs.len(),
            om == outputs_model(outputs@),
            om == dataset.model().all_outputs(),
            name == dataset.name@,
            outputs_problem(name, om, i as int) is None,
            degraded == exists|j: int| 0 <= j < i && (#[trigger] om[j]).quality is Some,
        decreases outputs.len() - i,
    {
        let out = &outputs[i];
        assert(om[i as int] == out.model());
        if let Some(q) = &out.quality {
            assert(om[i as int].quality == Some(q.model()));
            degraded = true;
            if let Err(p) = validate_data_quality(&dataset.name, &out.file, q, true) {
                proof {
                    lemma_outputs_problem_stays(name, om, i + 1, om.len() as int);
                }
                return Err(p);
            }
        }
        i += 1;
    }
    let ghost dm = fields_model(dataset.data@);
    assert(degraded == degrades(om));
    let mut k: usize = 0;
    while k < dataset.data.len()
        invariant
            k <= dataset.data.len(),
            dm == fields_model(dataset.data@),
            om == dataset.model().all_outputs(),
            outputs_problem(name, om, om.len() as int) is None,
            degraded == degrades(om),
            name == dataset.name@,
            own_qualities_problem(name, dm, degraded, k as int) is None,
        decreases dataset.data.len() - k,
    {
        assert(dm[k as int] == dataset.data[k as int].model());
        if let Err(p) = check_own_quality(&dataset.name, &dataset.data[k], degraded) {
            proof {
                lemma_own_problem_stays(name, dm, degraded, k + 1, dm.len() as int);
            }
            return Err(p);
        }
        k += 1;
    }
    Ok(())
}

} // verus!
