//! What checking promises: which declarations pass, and what holds of a dataset that does.
use vstd::prelude::*;

use crate::constraints::{constraint_problem, constraints_of};
use crate::dq::{corruption_steps_of, CorruptionStep};
use crate::generator::arg_of;
use crate::models::{
    ArgEntryModel, Corruptions, CountSpec, DataQualityModel, DatasetEntryModel, FieldModel,
    FieldType, FieldVariantModel, Generator, IncludeModel, ListContentModel, Locale, Num, Range,
    RefBindingModel, Reducer, SyntheticDatasetModel, YamlModel,
};
use crate::models::{default_field_model, law_joined_ref_splits, link_position, ref_parts};
use crate::rewrite_laws::{has_field, is_first_dataset};
use crate::validate::{
    dataset_check, datasets_check, ring_problem, row_count_check, taint_problem, validation,
};
use crate::validate_field::{
    args_problem, date_bounds_problem, declared, field_check, first_nameless, locale_problem,
    narrowings_problem, nested_check, shares_problem, typed_check, unknown_arg, variant_problem,
    variants_problem, ShareTotalModel,
};
use crate::validate_links::{
    binding_problem, bound_field_problem, cardinality_problem, content_field_problem,
    content_problem, dataset_field_check, dataset_fields_check, each_link_problem, group_refs,
    include_only_problem, link_problem, links_problem, project_problem, ref_problem, refs_problem,
    unlinked_problem,
};
use crate::validate_quality::{
    corruption_mode_problem, own_qualities_problem, own_quality_problem, outputs_problem,
    quality_problem, quality_stanza_problem, rate_problem,
};

verus! {

// ---------------------------------------------------------------------------
// Rates
// ---------------------------------------------------------------------------

/// A rate that is a probability, or none at all.
pub open spec fn is_probability(rate: Option<Num>) -> bool {
    rate is Some ==> 0 <= rate->0.key <= Num::one().key
}

/// A rate passes exactly where it is a probability.
pub proof fn law_rates_are_probabilities(dataset: Seq<char>, name: Seq<char>, rate: Option<Num>)
    ensures
        rate_problem(dataset, name, rate) is None <==> is_probability(rate),
{
}

/// A declared degradation passes exactly where all its rates are probabilities, and where an
/// output leaves the choice of defaults to the fields and a field leaves whole rows to the outputs.
pub proof fn law_degradation_passes_where_it_fits(
    dataset: Seq<char>,
    context: Seq<char>,
    q: DataQualityModel,
    on_output: bool,
)
    ensures
        quality_problem(dataset, context, q, on_output) is None <==> {
            &&& is_probability(q.nulls)
            &&& is_probability(q.default_rate)
            &&& on_output ==> is_probability(q.duplication) && is_probability(q.missing)
                && q.default_values is None && q.defaults_mode is None
            &&& !on_output ==> q.duplication is None && q.missing is None
            &&& q.corruptions is Some ==> {
                let c = q.corruptions->0;
                &&& is_probability(c.character_deletion)
                &&& is_probability(c.character_insertion)
                &&& is_probability(c.truncation)
                &&& is_probability(c.encoding)
                &&& is_probability(c.noise)
                &&& is_probability(c.day_shift)
            }
        },
{
}

/// Corruptions pass exactly where every rate that is set has a step for columns of the type.
pub proof fn law_corruptions_pass_where_they_apply(path: Seq<char>, c: Corruptions, t: FieldType)
    ensures
        corruption_mode_problem(path, c, t) is None <==> {
            let s = corruption_steps_of(t, c);
            &&& c.character_deletion is Some ==> s.contains(
                CorruptionStep::Deletion(c.character_deletion->0),
            )
            &&& c.character_insertion is Some ==> s.contains(
                CorruptionStep::Insertion(c.character_insertion->0),
            )
            &&& c.truncation is Some ==> s.contains(CorruptionStep::Truncation(c.truncation->0))
            &&& c.encoding is Some ==> s.contains(CorruptionStep::Encoding(c.encoding->0))
            &&& c.noise is Some ==> s.contains(
                (CorruptionStep::Noise { rate: c.noise->0, scale: c.noise_scale }),
            )
            &&& c.day_shift is Some ==> s.contains(
                (CorruptionStep::DayShift { rate: c.day_shift->0, max_days: c.day_shift_max }),
            )
        },
{
    crate::quality_laws::law_corruptions_fit_the_type(t, c, c.character_deletion->0);
    crate::quality_laws::law_corruptions_fit_the_type(t, c, c.character_insertion->0);
    crate::quality_laws::law_corruptions_fit_the_type(t, c, c.truncation->0);
    crate::quality_laws::law_corruptions_fit_the_type(t, c, c.encoding->0);
    crate::quality_laws::law_corruptions_fit_the_type(t, c, c.noise->0);
    crate::quality_laws::law_corruptions_fit_the_type(t, c, c.day_shift->0);
}

proof fn lemma_outputs_pass(
    dataset: Seq<char>,
    outputs: Seq<crate::models::OutputModel>,
    n: int,
    o: int,
)
    requires
        0 <= o < n <= outputs.len(),
        outputs_problem(dataset, outputs, n) is None,
    ensures
        outputs[o].quality is Some ==> quality_problem(
            dataset,
            outputs[o].file,
            outputs[o].quality->0,
            true,
        ) is None,
    decreases n,
{
    if o < n - 1 {
        lemma_outputs_pass(dataset, outputs, n - 1, o);
    }
}

proof fn lemma_own_pass(
    dataset: Seq<char>,
    fields: Seq<FieldModel>,
    degrades: bool,
    n: int,
    i: int,
)
    requires
        0 <= i < n <= fields.len(),
        own_qualities_problem(dataset, fields, degrades, n) is None,
    ensures
        own_quality_problem(dataset, fields[i], degrades) is None,
    decreases n,
{
    if i < n - 1 {
        lemma_own_pass(dataset, fields, degrades, n - 1, i);
    }
}

/// In a dataset whose degradation passes, every output and every field passes on its own, and a
/// field degrades only where some output does, by corruptions of its type.
pub proof fn law_all_degradation_passes(ds: SyntheticDatasetModel, o: int, i: int)
    requires
        quality_stanza_problem(ds) is None,
    ensures
        0 <= o < ds.all_outputs().len() && ds.all_outputs()[o].quality is Some ==> quality_problem(
            ds.name,
            ds.all_outputs()[o].file,
            ds.all_outputs()[o].quality->0,
            true,
        ) is None,
        0 <= i < ds.data.len() && ds.data[i].quality is Some ==> {
            &&& quality_problem(
                ds.name,
                ds.name + "."@ + ds.data[i].name,
                ds.data[i].quality->0,
                false,
            ) is None
            &&& exists|p: int|
                0 <= p < ds.all_outputs().len() && (#[trigger] ds.all_outputs()[p]).quality is Some
            &&& ds.data[i].quality->0.corruptions is Some && ds.data[i].field_type is Some
                ==> corruption_mode_problem(
                ds.name + "."@ + ds.data[i].name,
                ds.data[i].quality->0.corruptions->0,
                ds.data[i].field_type->0,
            ) is None
        },
{
    if 0 <= o < ds.all_outputs().len() {
        lemma_outputs_pass(ds.name, ds.all_outputs(), ds.all_outputs().len() as int, o);
    }
    if 0 <= i < ds.data.len() {
        lemma_own_pass(
            ds.name,
            ds.data,
            crate::validate_quality::degrades(ds.all_outputs()),
            ds.data.len() as int,
            i,
        );
    }
}

// ---------------------------------------------------------------------------
// Arguments
// ---------------------------------------------------------------------------

/// A locale passes exactly where there is none, or a generator that depends on it.
pub proof fn law_locales_need_a_generator(
    path: Seq<char>,
    locale: Option<Locale>,
    generator: Option<Generator>,
)
    ensures
        locale_problem(path, locale, generator) is None <==> locale is None || (generator is Some
            && generator->0.is_localised()),
{
}

proof fn lemma_unknown(args: Seq<ArgEntryModel>, names: Seq<Seq<char>>, n: int)
    requires
        0 <= n <= args.len(),
    ensures
        unknown_arg(args, names, n) is None <==> forall|i: int|
            0 <= i < n ==> names.contains((#[trigger] args[i]).key),
    decreases n,
{
    if n > 0 {
        lemma_unknown(args, names, n - 1);
    }
}

/// Arguments that pass are all known to the generator, and have values that it can use: a percentage for
/// a flag, counts in ascending order, a precision from 1 to 12, a text for a format.
pub proof fn law_arguments_that_pass_can_be_used(path: Seq<char>, f: FieldModel, i: int)
    requires
        args_problem(path, f) is None,
        f.args is Some,
    ensures
        ({
            let args = f.args->0;
            let flag = f.field_type == Some(FieldType::Boolean);
            &&& flag && 0 <= i < args.len() ==> args[i].key == "ratio"@
            &&& flag && arg_of(f.args, "ratio"@) is Some ==> arg_of(f.args, "ratio"@)->0.count()
                is Some && arg_of(f.args, "ratio"@)->0.count()->0 <= 100
            &&& !flag ==> f.generator is Some && f.generator->0.arg_names() is Some
            &&& !flag && 0 <= i < args.len() ==> f.generator->0.arg_names()->0.contains(
                args[i].key,
            )
            &&& !flag && f.generator == Some(Generator::Geohash) && arg_of(
                f.args,
                "precision"@,
            ) is Some ==> arg_of(f.args, "precision"@)->0.count() is Some && 1 <= arg_of(
                f.args,
                "precision"@,
            )->0.count()->0 <= 12
            &&& !flag && f.generator == Some(Generator::NumberWithFormat) ==> arg_of(
                f.args,
                "format"@,
            ) is Some && arg_of(f.args, "format"@)->0 is Text
            &&& !flag && (f.generator == Some(Generator::Words) || f.generator == Some(
                Generator::Sentence,
            ) || f.generator == Some(Generator::Sentences) || f.generator == Some(
                Generator::Paragraph,
            ) || f.generator == Some(Generator::Paragraphs) || f.generator == Some(
                Generator::Password,
            )) ==> {
                let min = arg_of(f.args, "min"@);
                let max = arg_of(f.args, "max"@);
                &&& min is Some ==> min->0.count() is Some
                &&& max is Some ==> max->0.count() is Some
                &&& min is Some && max is Some ==> min->0.count()->0 < max->0.count()->0
            }
        }),
{
    let args = f.args->0;
    lemma_unknown(args, seq!["ratio"@], args.len() as int);
    if f.generator is Some && f.generator->0.arg_names() is Some {
        lemma_unknown(args, f.generator->0.arg_names()->0, args.len() as int);
    }
    if 0 <= i < args.len() && seq!["ratio"@].contains(args[i].key) {
        let k = choose|k: int|
            0 <= k < seq!["ratio"@].len() && seq!["ratio"@][k] == args[i].key;
        assert(k == 0);
    }
}

/// Without arguments nothing can be wrong with them.
pub proof fn law_no_arguments_pass(path: Seq<char>, f: FieldModel)
    ensures
        f.args is None ==> args_problem(path, f) is None,
        f.args is Some && f.generator is None && f.field_type != Some(FieldType::Boolean)
            ==> args_problem(path, f) is Some,
{
}

/// Constraints pass exactly where the bounds do not cross and a constant number lies within them.
pub proof fn law_constraints_pass_where_they_can_be_met(path: Seq<char>, f: FieldModel)
    requires
        f.range is Some,
        f.range->0.min is Some ==> !f.range->0.min->0.nan(),
        f.range->0.max is Some ==> !f.range->0.max->0.nan(),
        f.value is Some && f.value->0.num() is Some ==> !f.value->0.num()->0.nan(),
    ensures
        constraint_problem(path, constraints_of(f)) is None <==> {
            let min = f.range->0.min;
            let max = f.range->0.max;
            &&& min is Some && max is Some ==> min->0.key <= max->0.key
            &&& f.value is Some && f.value->0.num() is Some && min is Some ==> min->0.key
                <= f.value->0.num()->0.key
            &&& f.value is Some && f.value->0.num() is Some && max is Some
                ==> f.value->0.num()->0.key <= max->0.key
        },
{
}

// ---------------------------------------------------------------------------
// Fields
// ---------------------------------------------------------------------------

/// The range has a bound.
pub open spec fn is_bounded(r: Option<Range>) -> bool {
    r is Some && (r->0.min is Some || r->0.max is Some)
}

/// A value that columns of the type can hold; anything goes for types without columns of their own.
pub open spec fn is_of_type(t: FieldType, v: YamlModel) -> bool {
    match t {
        FieldType::Number => v.num() is Some,
        FieldType::Boolean => v is Bool,
        FieldType::String => v is Text,
        FieldType::Date => v is Text,
        FieldType::DateTime => v is Text,
        _ => true,
    }
}

/// A computed field that passes has no other source of values.
pub proof fn law_computed_fields_have_one_source(
    path: Seq<char>,
    f: FieldModel,
    totals: Seq<ShareTotalModel>,
)
    requires
        !f.imported_taint,
        f.expression is Some,
    ensures
        field_check(path, f, totals) is Ok <==> {
            &&& f.field_type is None
            &&& f.type_ref() is None
            &&& f.generator is None
            &&& !is_bounded(f.range)
            &&& f.value is None
            &&& f.fields.len() == 0
            &&& f.content is None
        },
{
}

proof fn lemma_named(cases: Seq<crate::models::CaseDeltaModel>, n: int)
    requires
        0 <= n <= cases.len(),
    ensures
        first_nameless(cases, n) is None <==> forall|i: int|
            0 <= i < n ==> (#[trigger] cases[i]).name.len() > 0,
    decreases n,
{
    if n > 0 {
        lemma_named(cases, n - 1);
    }
}

/// A field that passes, and is neither imported nor computed, says nothing twice: a constant and a
/// finite set exclude each other, a set has members, a reference brings the type and the
/// structure, and what restricts cases refers to a parent and names each case.
pub proof fn law_fields_that_pass_do_not_contradict_themselves(
    path: Seq<char>,
    f: FieldModel,
    totals: Seq<ShareTotalModel>,
    i: int,
)
    requires
        !f.imported_taint,
        f.expression is None,
        field_check(path, f, totals) is Ok,
    ensures
        f.one_of is Some ==> f.one_of->0.len() > 0 && f.value is None,
        f.type_ref() is Some ==> f.field_type is None && f.fields.len() == 0 && f.content is None,
        f.type_ref() is None ==> f.field_type is Some,
        f.preserve_marginal ==> f.field_type == Some(FieldType::Variant),
        f.constrain_cases.len() > 0 ==> f.type_ref() is Some,
        0 <= i < f.constrain_cases.len() ==> f.constrain_cases[i].name.len() > 0,
        f.locale is Some ==> f.generator is Some && f.generator->0.is_localised(),
        args_problem(path, f) is None,
        constraint_problem(path, constraints_of(f)) is None,
{
    lemma_named(f.constrain_cases, f.constrain_cases.len() as int);
}

/// In a field of a type that passes, everything goes with the type: fields with objects, content
/// with lists, bounds with numbers, the generator, the default and every member of a finite set
/// with the type itself. Dates lie in order.
pub proof fn law_fields_that_pass_fit_their_type(
    path: Seq<char>,
    f: FieldModel,
    totals: Seq<ShareTotalModel>,
    i: int,
)
    requires
        !f.imported_taint,
        f.expression is None,
        f.field_type is Some,
        f.field_type != Some(FieldType::Variant),
        field_check(path, f, totals) is Ok,
    ensures
        ({
            let t = f.field_type->0;
            &&& f.fields.len() > 0 ==> t == FieldType::Object
            &&& f.content is Some ==> t == FieldType::List
            &&& is_bounded(f.range) ==> t == FieldType::Number
            &&& f.generator is Some ==> f.generator->0.fits(t)
            &&& f.default is Some ==> is_of_type(t, f.default->0)
            &&& f.default is Some && t == FieldType::List ==> f.default->0 is Sequence
            &&& f.default is Some && t == FieldType::Object ==> f.default->0 is Mapping
            &&& f.one_of is Some && 0 <= i < f.one_of->0.len() ==> is_of_type(t, f.one_of->0[i])
            &&& f.after is Some || f.before is Some ==> t == FieldType::Date || t
                == FieldType::DateTime
            &&& t == FieldType::List && f.content is Some && f.content->0.from is Some ==> f.count
                is None
        }),
{
    reveal_with_fuel(field_check, 3);
    reveal_with_fuel(typed_check, 3);
}

/// The bounds of a date that passes can be read and lie in order.
pub proof fn law_dates_that_pass_lie_in_order(path: Seq<char>, f: FieldModel)
    requires
        f.field_type == Some(FieldType::Date),
    ensures
        date_bounds_problem(path, f) is None <==> {
            &&& f.after is Some ==> crate::dates::day_of(f.after->0) is Ok
            &&& f.before is Some ==> crate::dates::day_of(f.before->0) is Ok
            &&& f.after is Some && f.before is Some ==> crate::dates::day_of(f.after->0)->Ok_0
                < crate::dates::day_of(f.before->0)->Ok_0
        },
{
}

/// The bounds of a point in time that passes can be read and lie in order.
pub proof fn law_instants_that_pass_lie_in_order(path: Seq<char>, f: FieldModel)
    requires
        f.field_type == Some(FieldType::DateTime),
    ensures
        date_bounds_problem(path, f) is None <==> {
            &&& f.after is Some ==> crate::dates::instant_of(f.after->0) is Ok
            &&& f.before is Some ==> crate::dates::instant_of(f.before->0) is Ok
            &&& f.after is Some && f.before is Some ==> {
                let a = crate::dates::instant_of(f.after->0)->Ok_0;
                let b = crate::dates::instant_of(f.before->0)->Ok_0;
                a.0 < b.0 || (a.0 == b.0 && a.1 < b.1)
            }
        },
{
}

proof fn lemma_nested(
    path: Seq<char>,
    fields: Seq<FieldModel>,
    totals: Seq<ShareTotalModel>,
    n: int,
    i: int,
)
    requires
        0 <= i < n <= fields.len(),
        nested_check(path, fields, totals, n) is Ok,
    ensures
        fields[i].name.len() > 0,
        field_check(path + "."@ + fields[i].name, fields[i], totals) is Ok,
    decreases n,
{
    reveal_with_fuel(nested_check, 2);
    if i < n - 1 {
        lemma_nested(path, fields, totals, n - 1, i);
    }
}

/// In an object that passes, every field has a name and passes itself; in a list that passes, the
/// item does.
pub proof fn law_nested_fields_pass_too(
    path: Seq<char>,
    f: FieldModel,
    totals: Seq<ShareTotalModel>,
    i: int,
)
    requires
        !f.imported_taint,
        f.expression is None,
        f.field_type is Some,
        field_check(path, f, totals) is Ok,
    ensures
        f.field_type == Some(FieldType::Object) && 0 <= i < f.fields.len() ==> f.fields[i].name.len()
            > 0 && field_check(path + "."@ + f.fields[i].name, f.fields[i], totals) is Ok,
        f.field_type == Some(FieldType::List) && f.content is Some && f.content->0.from is None
            ==> field_check(path + "[]"@, f.content->0.item, totals) is Ok,
{
    reveal_with_fuel(field_check, 3);
    reveal_with_fuel(typed_check, 3);
    if f.field_type == Some(FieldType::Object) && 0 <= i < f.fields.len() {
        assert(nested_check(path, f.fields, totals, f.fields.len() as int) is Ok) by {
            reveal_with_fuel(field_check, 4);
            reveal_with_fuel(typed_check, 4);
        }
        lemma_nested(path, f.fields, totals, f.fields.len() as int, i);
    }
}

/// An alternative passes only where it is no nested choice, has one source of values, bounds that
/// do not cross, a generator that goes with its type, and a type that can be told.
pub proof fn law_alternatives_that_pass_have_a_type(path: Seq<char>, c: FieldVariantModel)
    requires
        variant_problem(path, c) is None,
    ensures
        c.field_type != Some(FieldType::Variant),
        c.value is Some ==> c.generator is None && !is_bounded(c.range),
        c.range is Some && c.range->0.min is Some && c.range->0.max is Some
            && !c.range->0.min->0.nan() && !c.range->0.max->0.nan() ==> c.range->0.min->0.key
            <= c.range->0.max->0.key,
        c.locale is Some ==> c.generator is Some && c.generator->0.is_localised(),
        c.generator is Some && c.field_type is Some ==> c.generator->0.fits(c.field_type->0),
        crate::expand_variants::inferred(c) is Some,
{
}

proof fn lemma_variants(path: Seq<char>, variants: Seq<FieldVariantModel>, n: int, i: int)
    requires
        0 <= i < n <= variants.len(),
        variants_problem(path, variants, n) is None,
    ensures
        variant_problem(crate::validate_field::variant_path(path, i), variants[i]) is None,
    decreases n,
{
    if i < n - 1 {
        lemma_variants(path, variants, n - 1, i);
    }
}

proof fn lemma_narrowings(path: Seq<char>, variants: Seq<FieldVariantModel>, n: int, i: int)
    requires
        0 <= i < n <= variants.len(),
        narrowings_problem(path, variants, n) is None,
    ensures
        variants[i].fields.len() == 0,
        variants[i].field_type != Some(FieldType::Object),
        variants[i].value is Some || variants[i].generator is Some || is_bounded(variants[i].range),
    decreases n,
{
    if i < n - 1 {
        lemma_narrowings(path, variants, n - 1, i);
    }
}

/// A field of choices that passes has some, and each passes; choices of a reference each say
/// something of a plain value.
pub proof fn law_choices_that_pass_can_be_drawn(
    path: Seq<char>,
    f: FieldModel,
    totals: Seq<ShareTotalModel>,
    i: int,
)
    requires
        !f.imported_taint,
        f.expression is None,
        field_check(path, f, totals) is Ok,
    ensures
        f.field_type == Some(FieldType::Variant) ==> f.variants.len() > 0 && shares_problem(
            path,
            f.variants,
            totals,
        ) is None,
        f.field_type == Some(FieldType::Variant) && 0 <= i < f.variants.len() ==> variant_problem(
            crate::validate_field::variant_path(path, i),
            f.variants[i],
        ) is None,
        f.type_ref() is Some && 0 <= i < f.variants.len() ==> {
            &&& f.variants[i].fields.len() == 0
            &&& f.variants[i].field_type != Some(FieldType::Object)
            &&& f.variants[i].value is Some || f.variants[i].generator is Some || is_bounded(
                f.variants[i].range,
            )
        },
{
    if 0 <= i < f.variants.len() {
        if f.field_type == Some(FieldType::Variant) {
            lemma_variants(path, f.variants, f.variants.len() as int, i);
        }
        if f.type_ref() is Some {
            lemma_narrowings(path, f.variants, f.variants.len() as int, i);
        }
    }
}

/// Shares that add up to more than one never pass, and shares given for all alternatives pass only
/// where they add up to one.
pub proof fn law_shares_add_up_to_one(
    path: Seq<char>,
    variants: Seq<FieldVariantModel>,
    t: ShareTotalModel,
)
    requires
        t.shares == declared(variants, variants.len() as int),
    ensures
        shares_problem(path, variants, seq![t]) is None <==> !t.above && ((forall|i: int|
            0 <= i < variants.len() ==> (#[trigger] variants[i]).ratio is Some) ==> !t.off),
{
    assert(crate::validate_field::total_at(seq![t], t.shares, 0) == Some(t));
}

/// The shares that are added up are those declared, all of them.
pub proof fn law_all_declared_shares_count(variants: Seq<FieldVariantModel>, n: int)
    requires
        0 < n <= variants.len(),
    ensures
        variants[n - 1].ratio is Some ==> declared(variants, n) == declared(variants, n - 1).push(
            variants[n - 1].ratio->0,
        ),
        variants[n - 1].ratio is None ==> declared(variants, n) == declared(variants, n - 1),
        declared(variants, 0).len() == 0,
{
}

/// A plain number with bounds in order passes, without a warning; so does a plain text, a flag and a date.
pub proof fn law_plain_fields_pass(
    path: Seq<char>,
    name: Seq<char>,
    t: FieldType,
    r: Option<Range>,
    totals: Seq<ShareTotalModel>,
)
    requires
        t != FieldType::Variant,
        t != FieldType::Object,
        t != FieldType::List,
        r is Some ==> t == FieldType::Number,
        r is Some && r->0.min is Some && r->0.max is Some ==> r->0.min->0.key <= r->0.max->0.key,
    ensures
        field_check(
            path,
            (FieldModel { name, field_type: Some(t), range: r, ..default_field_model() }),
            totals,
        ) == Ok::<Seq<Seq<char>>, Seq<crate::message::PartModel>>(Seq::empty()),
{
    reveal_with_fuel(field_check, 3);
    reveal_with_fuel(typed_check, 3);
}

// ---------------------------------------------------------------------------
// Links
// ---------------------------------------------------------------------------

/// A count passes exactly where it is at least one, and its bounds are in order.
pub proof fn law_counts_pass_from_one_on(card: CountSpec, context: Seq<char>)
    ensures
        cardinality_problem(card, context) is None <==> match card {
            CountSpec::Fixed(n) => n >= 1,
            CountSpec::Uniform { min, max } => 1 <= min <= max,
            CountSpec::Normal { .. } => true,
        },
{
}

/// A weight that draws can use: zero, one or more.
pub open spec fn is_weight(w: Option<Num>) -> bool {
    w is Some && !w->0.nan() ==> w->0.key == 0 || w->0.key >= Num::one().key
}

/// A link passes exactly where its dataset is found, its weights can be used, together too, and
/// only a link that feeds a list has a cardinality.
pub proof fn law_links_pass_where_they_can_be_drawn_from(
    name: Seq<char>,
    l: IncludeModel,
    groups: Seq<Seq<char>>,
)
    requires
        l.overlap is Some ==> !l.overlap->0.nan(),
        l.reinforcement is Some ==> !l.reinforcement->0.nan(),
    ensures
        link_problem(name, l, groups) is None <==> {
            &&& l.resolved is Some
            &&& l.cardinality is Some ==> groups.contains(l.reference)
            &&& is_weight(l.reinforcement)
            &&& is_weight(l.overlap)
            &&& !(l.overlap is Some && l.overlap->0.key > Num::one().key && l.reinforcement is Some
                && l.reinforcement->0.key == 0)
        },
{
}

proof fn lemma_each_link(
    name: Seq<char>,
    links: Seq<IncludeModel>,
    groups: Seq<Seq<char>>,
    n: int,
    l: int,
)
    requires
        0 <= l < n <= links.len(),
        each_link_problem(name, links, groups, n) is None,
    ensures
        link_problem(name, links[l], groups) is None,
    decreases n,
{
    if l < n - 1 {
        lemma_each_link(name, links, groups, n - 1, l);
    }
}

proof fn lemma_linked(
    name: Seq<char>,
    links: Seq<IncludeModel>,
    groups: Seq<Seq<char>>,
    n: int,
    g: int,
)
    requires
        0 <= g < n <= groups.len(),
        unlinked_problem(name, links, groups, n) is None,
    ensures
        exists|l: int| 0 <= l < links.len() && (#[trigger] links[l]).reference == groups[g],
    decreases n,
{
    if g < n - 1 {
        lemma_linked(name, links, groups, n - 1, g);
    } else {
        lemma_link(links, groups[g], 0);
    }
}

proof fn lemma_link(links: Seq<IncludeModel>, reference: Seq<char>, from: int)
    requires
        0 <= from <= links.len(),
    ensures
        match link_position(links, reference, from) {
            Some(p) => from <= p < links.len() && links[p].reference == reference && forall|j: int|
                from <= j < p ==> (#[trigger] links[j]).reference != reference,
            None => forall|j: int|
                from <= j < links.len() ==> (#[trigger] links[j]).reference != reference,
        },
    decreases links.len() - from,
{
    if from < links.len() {
        lemma_link(links, reference, from + 1);
    }
}

proof fn lemma_group_refs(fields: Seq<FieldModel>, n: int, i: int)
    requires
        0 <= i < n <= fields.len(),
        fields[i].content is Some,
        fields[i].content->0.from is Some,
    ensures
        group_refs(fields, n).contains(fields[i].content->0.from->0),
    decreases n,
{
    let s = fields[i].content->0.from->0;
    let before = group_refs(fields, n - 1);
    let now = group_refs(fields, n);
    if i < n - 1 {
        lemma_group_refs(fields, n - 1, i);
        let k = choose|k: int| 0 <= k < before.len() && before[k] == s;
        assert(now[k] == s);
    } else {
        assert(now[before.len() as int] == s);
    }
}

proof fn lemma_no_repeat(names: Seq<Seq<char>>, n: int, i: int, j: int)
    requires
        0 <= i < j < n <= names.len(),
        crate::validate_flatten::first_repeat(names, n) is None,
    ensures
        names[i] != names[j],
    decreases n,
{
    if j < n - 1 {
        lemma_no_repeat(names, n - 1, i, j);
    } else {
        let before = names.subrange(0, n - 1);
        assert(before[i] == names[i]);
    }
}

/// In a dataset whose links pass, every link passes on its own, and every list draws from a link
/// of the dataset that no other list draws from.
pub proof fn law_lists_have_a_link_of_their_own(ds: SyntheticDatasetModel, l: int, i: int)
    requires
        links_problem(ds) is None,
    ensures
        0 <= l < ds.links.len() ==> link_problem(
            ds.name,
            ds.links[l],
            group_refs(ds.data, ds.data.len() as int),
        ) is None,
        0 <= i < ds.data.len() && ds.data[i].content is Some && ds.data[i].content->0.from is Some
            ==> exists|k: int|
            0 <= k < ds.links.len() && (#[trigger] ds.links[k]).reference
                == ds.data[i].content->0.from->0,
        group_refs(ds.data, ds.data.len() as int).no_duplicates(),
{
    let groups = group_refs(ds.data, ds.data.len() as int);
    if 0 <= l < ds.links.len() {
        lemma_each_link(ds.name, ds.links, groups, ds.links.len() as int, l);
    }
    if 0 <= i < ds.data.len() && ds.data[i].content is Some && ds.data[i].content->0.from is Some {
        lemma_group_refs(ds.data, ds.data.len() as int, i);
        let g = choose|g: int|
            0 <= g < groups.len() && groups[g] == ds.data[i].content->0.from->0;
        lemma_linked(ds.name, ds.links, groups, groups.len() as int, g);
    }
    assert forall|a: int, b: int|
        0 <= a < groups.len() && 0 <= b < groups.len() && a != b implies groups[a] != groups[b] by {
        if a < b {
            lemma_no_repeat(groups, groups.len() as int, a, b);
        } else {
            lemma_no_repeat(groups, groups.len() as int, b, a);
        }
    }
}

/// An include passes exactly where it has none of the options that only links have, and a
/// cardinality only where the number of rows is left open.
pub proof fn law_includes_pass_without_options_of_links(ds: SyntheticDatasetModel)
    requires
        ds.include_spec is Some,
    ensures
        include_only_problem(ds) is None <==> {
            let inc = ds.include_spec->0;
            &&& inc.reinforcement is None
            &&& inc.overlap is None
            &&& inc.cardinality is Some ==> ds.rows is None && match inc.cardinality->0 {
                CountSpec::Fixed(n) => n >= 1,
                CountSpec::Uniform { min, max } => 1 <= min <= max,
                CountSpec::Normal { .. } => true,
            }
        },
{
}

/// The number of rows passes exactly where it is not said twice; where it is said nowhere, one
/// warning tells so.
pub proof fn law_row_counts_are_said_once(ds: SyntheticDatasetModel)
    ensures
        row_count_check(ds) is Err <==> ds.rows is Some && (ds.import is Some || (ds.include_spec
            is Some && ds.include_spec->0.ratio is Some)),
        row_count_check(ds) is Ok ==> row_count_check(ds)->Ok_0.len() == if ds.rows is None
            && ds.include_spec is None && ds.import is None {
            1int
        } else {
            0int
        },
{
}

/// A ring passes exactly where it lies between zero and one and its start before its end.
pub proof fn law_rings_lie_between_zero_and_one(ds: SyntheticDatasetModel)
    requires
        ds.import is Some,
        ds.import->0.ring is Some,
        !ds.import->0.ring->0.start.nan(),
        !ds.import->0.ring->0.end.nan(),
    ensures
        ring_problem(ds) is None <==> 0 <= ds.import->0.ring->0.start.key
            < ds.import->0.ring->0.end.key <= Num::one().key,
{
}

// ---------------------------------------------------------------------------
// References
// ---------------------------------------------------------------------------

/// The field that the reference names exists.
pub open spec fn finds(
    all: Seq<DatasetEntryModel>,
    inc: IncludeModel,
    column: Seq<char>,
) -> bool {
    exists|t: int|
        #[trigger] is_first_dataset(all, t) && inc.resolved == Some(all[t].path) && has_field(
            all[t].dataset.data,
            column,
        )
}

proof fn lemma_finds(all: Seq<DatasetEntryModel>, inc: IncludeModel, column: Seq<char>)
    ensures
        finds(all, inc, column) <==> crate::models::target_of(all, inc) is Some && has_field(
            all[crate::models::target_of(all, inc)->0].dataset.data,
            column,
        ),
{
    if inc.resolved is Some {
        lemma_dataset(all, inc.resolved->0, 0);
        if let Some(t) = crate::models::target_of(all, inc) {
            assert(is_first_dataset(all, t));
        }
        if finds(all, inc, column) {
            let t = choose|t: int|
                #[trigger] is_first_dataset(all, t) && inc.resolved == Some(all[t].path)
                    && has_field(all[t].dataset.data, column);
            assert(all[t].path == inc.resolved->0);
        }
    }
}

proof fn lemma_dataset(all: Seq<DatasetEntryModel>, path: Seq<char>, from: int)
    requires
        0 <= from <= all.len(),
    ensures
        match crate::models::dataset_position(all, path, from) {
            Some(p) => from <= p < all.len() && all[p].path == path && forall|j: int|
                from <= j < p ==> (#[trigger] all[j]).path != path,
            None => forall|j: int| from <= j < all.len() ==> (#[trigger] all[j]).path != path,
        },
    decreases all.len() - from,
{
    if from < all.len() {
        lemma_dataset(all, path, from + 1);
    }
}

/// A reference through the include of a dataset passes exactly where the field it names exists.
pub proof fn law_references_pass_where_they_lead_somewhere(
    ds: SyntheticDatasetModel,
    field: Seq<char>,
    name: Seq<char>,
    column: Seq<char>,
    all: Seq<DatasetEntryModel>,
)
    requires
        !name.contains('.'),
    ensures
        ds.include_spec is Some && ds.include_spec->0.reference == name ==> (ref_problem(
            ds,
            field,
            name + seq!['.'] + column,
            all,
        ) is None <==> finds(all, ds.include_spec->0, column)),
        (ds.include_spec is Some ==> ds.include_spec->0.reference != name) && (forall|l: int|
            0 <= l < ds.links.len() ==> (#[trigger] ds.links[l]).reference != name) ==> ref_problem(
            ds,
            field,
            name + seq!['.'] + column,
            all,
        ) is Some,
{
    law_joined_ref_splits(name, column);
    lemma_link(ds.links, name, 0);
    if ds.include_spec is Some {
        lemma_finds(all, ds.include_spec->0, column);
    }
}

/// A reference through a link of a dataset passes exactly where the field it names exists.
pub proof fn law_linked_references_pass_where_they_lead_somewhere(
    ds: SyntheticDatasetModel,
    field: Seq<char>,
    l: int,
    column: Seq<char>,
    all: Seq<DatasetEntryModel>,
)
    requires
        0 <= l < ds.links.len(),
        !ds.links[l].reference.contains('.'),
        ds.include_spec is Some ==> ds.include_spec->0.reference != ds.links[l].reference,
        forall|j: int| 0 <= j < l ==> (#[trigger] ds.links[j]).reference != ds.links[l].reference,
    ensures
        ref_problem(ds, field, ds.links[l].reference + seq!['.'] + column, all) is None <==> finds(
            all,
            ds.links[l],
            column,
        ),
{
    law_joined_ref_splits(ds.links[l].reference, column);
    lemma_link(ds.links, ds.links[l].reference, 0);
    lemma_finds(all, ds.links[l], column);
}

/// In a dataset whose references pass, the reference of every field does.
pub proof fn law_every_reference_passes(
    ds: SyntheticDatasetModel,
    all: Seq<DatasetEntryModel>,
    n: int,
    i: int,
)
    requires
        0 <= i < n <= ds.data.len(),
        refs_problem(ds, all, n) is None,
    ensures
        ds.data[i].type_ref() is Some ==> ref_problem(
            ds,
            ds.data[i].name,
            ds.data[i].type_ref()->0,
            all,
        ) is None,
    decreases n,
{
    if i < n - 1 {
        law_every_reference_passes(ds, all, n - 1, i);
    }
}

/// A binding writes to a field that can take it: lists collect, numbers add up, and there is a
/// default for rows that nothing is gathered for.
pub proof fn law_bound_fields_can_take_the_values(
    path: Seq<char>,
    bind: Seq<char>,
    column: Seq<char>,
    link: IncludeModel,
    f: FieldModel,
    reducer: Reducer,
)
    ensures
        bound_field_problem(path, bind, column, link, f, reducer) is None <==> {
            &&& f.default is Some
            &&& reducer == Reducer::Collect ==> f.field_type == Some(FieldType::List)
            &&& reducer == Reducer::Sum ==> f.field_type == Some(FieldType::Number)
        },
{
}

/// A binding that passes names a link of the dataset and a field of the linked dataset.
pub proof fn law_bindings_name_a_linked_field(
    ds: SyntheticDatasetModel,
    all: Seq<DatasetEntryModel>,
    path: Seq<char>,
    b: RefBindingModel,
    name: Seq<char>,
    column: Seq<char>,
)
    requires
        binding_problem(ds, all, path, b) is None,
    ensures
        b.bind is Some,
        !name.contains('.') && b.bind == Some(name + seq!['.'] + column) ==> exists|l: int|
            0 <= l < ds.links.len() && (#[trigger] ds.links[l]).reference == name && finds(
                all,
                ds.links[l],
                column,
            ),
{
    if !name.contains('.') && b.bind == Some(name + seq!['.'] + column) {
        law_joined_ref_splits(name, column);
        lemma_link(ds.links, name, 0);
        let l = link_position(ds.links, name, 0)->0;
        let t = crate::models::target_of(all, ds.links[l])->0;
        lemma_field(all[t].dataset.data, column, 0);
        let p = crate::models::field_position(all[t].dataset.data, column, 0)->0;
        assert(all[t].dataset.data[p].name == column);
        lemma_finds(all, ds.links[l], column);
        assert(ds.links[l].reference == name);
    }
}

proof fn lemma_field(s: Seq<FieldModel>, name: Seq<char>, from: int)
    requires
        0 <= from <= s.len(),
    ensures
        match crate::models::field_position(s, name, from) {
            Some(p) => from <= p < s.len() && s[p].name == name,
            None => forall|j: int| from <= j < s.len() ==> (#[trigger] s[j]).name != name,
        },
    decreases s.len() - from,
{
    if from < s.len() {
        lemma_field(s, name, from + 1);
    }
}

/// A projection passes exactly where it stands alone and names a field of the linked dataset.
pub proof fn law_projections_name_a_linked_field(
    c: ListContentModel,
    link: IncludeModel,
    path: Seq<char>,
    all: Seq<DatasetEntryModel>,
    column: Seq<char>,
)
    requires
        !link.reference.contains('.'),
        c.project == Some(link.reference + seq!['.'] + column),
    ensures
        project_problem(c, link, path, all) is None <==> c.item.fields.len() == 0 && finds(
            all,
            link,
            column,
        ),
{
    law_joined_ref_splits(link.reference, column);
    lemma_finds(all, link, column);
}

/// An item of a link that passes has a name, is neither computed nor a choice, and takes its
/// values from a field of the linked dataset, from a field of its own dataset, or generates them
/// by its type.
pub proof fn law_items_that_pass_have_a_source(
    parent: Seq<char>,
    link: IncludeModel,
    f: FieldModel,
    ds: SyntheticDatasetModel,
    all: Seq<DatasetEntryModel>,
    column: Seq<char>,
)
    requires
        content_field_problem(parent, link, f, ds, all) is None,
        !link.reference.contains('.'),
    ensures
        f.name.len() > 0,
        f.expression is None,
        f.field_type != Some(FieldType::Variant),
        f.type_ref() is None ==> f.field_type is Some,
        f.type_ref() == Some(link.reference + seq!['.'] + column) ==> f.field_type is None && finds(
            all,
            link,
            column,
        ),
        f.type_ref() is Some && (ref_parts(f.type_ref()->0) is None || (ref_parts(
            f.type_ref()->0,
        )->0).0 != link.reference) ==> f.field_type is Some && has_field(ds.data, f.type_ref()->0),
        f.generator is Some && f.field_type is Some ==> f.generator->0.fits(f.field_type->0),
        f.locale is Some ==> f.generator is Some && f.generator->0.is_localised(),
{
    law_joined_ref_splits(link.reference, column);
    lemma_finds(all, link, column);
}

proof fn lemma_content(
    parent: Seq<char>,
    link: IncludeModel,
    fields: Seq<FieldModel>,
    ds: SyntheticDatasetModel,
    all: Seq<DatasetEntryModel>,
    n: int,
    i: int,
)
    requires
        0 <= i < n <= fields.len(),
        content_problem(parent, link, fields, ds, all, n) is None,
    ensures
        content_field_problem(parent, link, fields[i], ds, all) is None,
    decreases n,
{
    if i < n - 1 {
        lemma_content(parent, link, fields, ds, all, n - 1, i);
    }
}

// ---------------------------------------------------------------------------
// Datasets
// ---------------------------------------------------------------------------

proof fn lemma_fields_pass(
    ds: SyntheticDatasetModel,
    totals: Seq<ShareTotalModel>,
    all: Seq<DatasetEntryModel>,
    n: int,
    i: int,
)
    requires
        0 <= i < n <= ds.data.len(),
        dataset_fields_check(ds, totals, all, n) is Ok,
    ensures
        dataset_field_check(ds, ds.data[i], totals, all) is Ok,
    decreases n,
{
    if i < n - 1 {
        lemma_fields_pass(ds, totals, all, n - 1, i);
    }
}

/// In a dataset that passes everything passes: each field has a name and passes on its own, with
/// the items that it draws from its link; so do links, references, bindings, the order of
/// expressions and the degradation.
pub proof fn law_datasets_that_pass_pass_in_all(
    ds: SyntheticDatasetModel,
    totals: Seq<ShareTotalModel>,
    all: Seq<DatasetEntryModel>,
    i: int,
    l: int,
    k: int,
)
    requires
        dataset_check(ds, totals, all) is Ok,
    ensures
        row_count_check(ds) is Ok,
        ring_problem(ds) is None,
        links_problem(ds) is None,
        include_only_problem(ds) is None,
        refs_problem(ds, all, ds.data.len() as int) is None,
        quality_stanza_problem(ds) is None,
        crate::validate_flatten::csv_problem(ds) is None,
        crate::validate::order_problem(ds, ds.data.len() as int) is None,
        crate::validate_links::all_bindings_problem(ds, all, ds.data.len() as int) is None,
        crate::validate_flatten::flatten_problem(
            ds.data,
            ds.format,
            Seq::empty(),
            ds.data.len() as int,
        ) is None,
        0 <= i < ds.data.len() ==> ds.data[i].name.len() > 0 && field_check(
            ds.name + "."@ + ds.data[i].name,
            ds.data[i],
            totals,
        ) is Ok,
        0 <= i < ds.data.len() && ds.data[i].content is Some && 0 <= l < ds.links.len()
            && ds.data[i].content->0.from == Some(ds.links[l].reference) && (forall|j: int|
            0 <= j < l ==> (#[trigger] ds.links[j]).reference != ds.links[l].reference) ==> {
            let path = ds.name + "."@ + ds.data[i].name + "[]"@;
            &&& project_problem(*ds.data[i].content->0, ds.links[l], path, all) is None
            &&& 0 <= k < ds.data[i].content->0.item.fields.len() ==> content_field_problem(
                path,
                ds.links[l],
                ds.data[i].content->0.item.fields[k],
                ds,
                all,
            ) is None
        },
{
    if 0 <= i < ds.data.len() {
        lemma_fields_pass(ds, totals, all, ds.data.len() as int, i);
        if ds.data[i].content is Some && 0 <= l < ds.links.len() && ds.data[i].content->0.from
            == Some(ds.links[l].reference) && (forall|j: int|
            0 <= j < l ==> (#[trigger] ds.links[j]).reference != ds.links[l].reference) {
            lemma_link(ds.links, ds.links[l].reference, 0);
            let items = ds.data[i].content->0.item.fields;
            if 0 <= k < items.len() {
                lemma_content(
                    ds.name + "."@ + ds.data[i].name + "[]"@,
                    ds.links[l],
                    items,
                    ds,
                    all,
                    items.len() as int,
                    k,
                );
            }
        }
    }
}

proof fn lemma_datasets_pass(
    all: Seq<DatasetEntryModel>,
    totals: Seq<ShareTotalModel>,
    n: int,
    i: int,
)
    requires
        0 <= i < n <= all.len(),
        datasets_check(all, totals, n) is Ok,
    ensures
        dataset_check(all[i].dataset, totals, all) is Ok,
    decreases n,
{
    if i < n - 1 {
        lemma_datasets_pass(all, totals, n - 1, i);
    }
}

/// Where checking succeeds, every dataset passes and no imported value leaves its dataset.
pub proof fn law_every_dataset_passes(
    all: Seq<DatasetEntryModel>,
    totals: Seq<ShareTotalModel>,
    i: int,
)
    requires
        validation(all, totals) is Ok,
    ensures
        0 <= i < all.len() ==> dataset_check(all[i].dataset, totals, all) is Ok,
        taint_problem(all, all.len() as int) is None,
{
    if 0 <= i < all.len() {
        lemma_datasets_pass(all, totals, all.len() as int, i);
    }
}

// ---------------------------------------------------------------------------
// Shares and bindings
// ---------------------------------------------------------------------------

proof fn lemma_nested_shares(fields: Seq<FieldModel>, n: int, i: int, k: int)
    requires
        0 <= i < n <= fields.len(),
        0 <= k < crate::shares::field_shares(fields[i]).len(),
    ensures
        crate::shares::nested_shares(fields, n).contains(
            crate::shares::field_shares(fields[i])[k],
        ),
    decreases n,
{
    reveal_with_fuel(crate::shares::nested_shares, 2);
    let want = crate::shares::field_shares(fields[i])[k];
    let before = crate::shares::nested_shares(fields, n - 1);
    let now = crate::shares::nested_shares(fields, n);
    assert(now == before + crate::shares::field_shares(fields[n - 1]));
    if i < n - 1 {
        lemma_nested_shares(fields, n - 1, i, k);
        let p = choose|p: int| 0 <= p < before.len() && before[p] == want;
        assert(now[p] == want);
    } else {
        assert(now[before.len() + k] == want);
    }
}

/// The shares of every field with alternatives are added up, wherever it stands: in a dataset, in
/// an object or in a list.
pub proof fn law_shares_of_all_fields_are_added_up(f: FieldModel, i: int, k: int)
    ensures
        f.variants.len() > 0 ==> crate::shares::field_shares(f).contains(
            declared(f.variants, f.variants.len() as int),
        ),
        0 <= i < f.fields.len() && 0 <= k < crate::shares::field_shares(f.fields[i]).len()
            ==> crate::shares::field_shares(f).contains(
            crate::shares::field_shares(f.fields[i])[k],
        ),
        f.content is Some && 0 <= k < crate::shares::field_shares(f.content->0.item).len()
            ==> crate::shares::field_shares(f).contains(
            crate::shares::field_shares(f.content->0.item)[k],
        ),
{
    let own: Seq<Seq<Num>> = if f.variants.len() > 0 {
        seq![declared(f.variants, f.variants.len() as int)]
    } else {
        Seq::empty()
    };
    let inner = crate::shares::nested_shares(f.fields, f.fields.len() as int);
    let all = crate::shares::field_shares(f);
    let tail: Seq<Seq<Num>> = if f.content is Some {
        crate::shares::field_shares(f.content->0.item)
    } else {
        Seq::empty()
    };
    assert(all =~= own + inner + tail) by {
        reveal_with_fuel(crate::shares::field_shares, 3);
    }
    if f.variants.len() > 0 {
        assert(all[0] == own[0]);
    }
    if 0 <= i < f.fields.len() && 0 <= k < crate::shares::field_shares(f.fields[i]).len() {
        lemma_nested_shares(f.fields, f.fields.len() as int, i, k);
        let want = crate::shares::field_shares(f.fields[i])[k];
        let p = choose|p: int| 0 <= p < inner.len() && inner[p] == want;
        assert(all[own.len() + p] == want);
    }
    if f.content is Some && 0 <= k < tail.len() {
        assert(all[own.len() + inner.len() + k] == tail[k]);
    }
}

/// The shares of the fields of every dataset are added up.
pub proof fn law_shares_of_all_datasets_are_added_up(
    all: Seq<DatasetEntryModel>,
    n: int,
    d: int,
    i: int,
    k: int,
)
    requires
        0 <= d < n <= all.len(),
        0 <= i < all[d].dataset.data.len(),
        0 <= k < crate::shares::field_shares(all[d].dataset.data[i]).len(),
    ensures
        crate::shares::dataset_shares(all, n).contains(
            crate::shares::field_shares(all[d].dataset.data[i])[k],
        ),
    decreases n,
{
    let want = crate::shares::field_shares(all[d].dataset.data[i])[k];
    let before = crate::shares::dataset_shares(all, n - 1);
    let now = crate::shares::dataset_shares(all, n);
    if d < n - 1 {
        law_shares_of_all_datasets_are_added_up(all, n - 1, d, i, k);
        let p = choose|p: int| 0 <= p < before.len() && before[p] == want;
        assert(now[p] == want);
    } else {
        let data = all[d].dataset.data;
        lemma_nested_shares(data, data.len() as int, i, k);
        let own = crate::shares::nested_shares(data, data.len() as int);
        let p = choose|p: int| 0 <= p < own.len() && own[p] == want;
        assert(now[before.len() + p] == want);
    }
}

proof fn lemma_bindings_pass(
    ds: SyntheticDatasetModel,
    all: Seq<DatasetEntryModel>,
    path: Seq<char>,
    bindings: Seq<RefBindingModel>,
    n: int,
    b: int,
)
    requires
        0 <= b < n <= bindings.len(),
        crate::validate_links::bindings_problem(ds, all, path, bindings, n) is None,
    ensures
        binding_problem(ds, all, path, bindings[b]) is None,
    decreases n,
{
    if b < n - 1 {
        lemma_bindings_pass(ds, all, path, bindings, n - 1, b);
    }
}

proof fn lemma_field_bindings_pass(
    ds: SyntheticDatasetModel,
    all: Seq<DatasetEntryModel>,
    n: int,
    i: int,
)
    requires
        0 <= i < n <= ds.data.len(),
        crate::validate_links::all_bindings_problem(ds, all, n) is None,
    ensures
        crate::validate_links::field_bindings_problem(ds, all, ds.data[i]) is None,
    decreases n,
{
    if i < n - 1 {
        lemma_field_bindings_pass(ds, all, n - 1, i);
    }
}

proof fn lemma_item_bindings_pass(
    ds: SyntheticDatasetModel,
    all: Seq<DatasetEntryModel>,
    path: Seq<char>,
    fields: Seq<FieldModel>,
    n: int,
    k: int,
)
    requires
        0 <= k < n <= fields.len(),
        crate::validate_links::item_bindings_problem(ds, all, path, fields, n) is None,
    ensures
        crate::validate_links::bindings_problem(
            ds,
            all,
            path + "[]."@ + fields[k].name,
            fields[k].collects(),
            fields[k].collects().len() as int,
        ) is None,
    decreases n,
{
    if k < n - 1 {
        lemma_item_bindings_pass(ds, all, path, fields, n - 1, k);
    }
}

/// In a dataset whose bindings pass, each binding of each field passes, and each one of the items
/// that are drawn from a link.
pub proof fn law_every_binding_passes(
    ds: SyntheticDatasetModel,
    all: Seq<DatasetEntryModel>,
    i: int,
    k: int,
    b: int,
)
    requires
        crate::validate_links::all_bindings_problem(ds, all, ds.data.len() as int) is None,
        0 <= i < ds.data.len(),
    ensures
        0 <= b < ds.data[i].collects().len() ==> binding_problem(
            ds,
            all,
            ds.name + "."@ + ds.data[i].name,
            ds.data[i].collects()[b],
        ) is None,
        ds.data[i].content is Some && ds.data[i].content->0.from is Some && 0 <= k
            < ds.data[i].content->0.item.fields.len() && 0 <= b
            < ds.data[i].content->0.item.fields[k].collects().len() ==> binding_problem(
            ds,
            all,
            ds.name + "."@ + ds.data[i].name + "[]."@ + ds.data[i].content->0.item.fields[k].name,
            ds.data[i].content->0.item.fields[k].collects()[b],
        ) is None,
{
    let f = ds.data[i];
    let path = ds.name + "."@ + f.name;
    lemma_field_bindings_pass(ds, all, ds.data.len() as int, i);
    if 0 <= b < f.collects().len() {
        lemma_bindings_pass(ds, all, path, f.collects(), f.collects().len() as int, b);
    }
    if f.content is Some && f.content->0.from is Some {
        let items = f.content->0.item.fields;
        if 0 <= k < items.len() && 0 <= b < items[k].collects().len() {
            lemma_item_bindings_pass(ds, all, path, items, items.len() as int, k);
            lemma_bindings_pass(
                ds,
                all,
                path + "[]."@ + items[k].name,
                items[k].collects(),
                items[k].collects().len() as int,
                b,
            );
        }
    }
}

/// The bindings of a field are those of its references that name a reducer, all of them.
pub proof fn law_bindings_are_references_with_a_reducer(
    f: FieldModel,
    e: Seq<crate::models::RefEntryModel>,
    b: RefBindingModel,
)
    requires
        f.refs == Some(crate::models::RefsSpecModel::Multi(e)),
    ensures
        f.collects().contains(b) <==> b.reducer is Some && e.contains(
            crate::models::RefEntryModel::Rich(b),
        ),
{
    lemma_reducers(e, e.len() as int, b);
    if e.contains(crate::models::RefEntryModel::Rich(b)) {
        let i = choose|i: int|
            0 <= i < e.len() && e[i] == crate::models::RefEntryModel::Rich(b);
        assert(e[i] == crate::models::RefEntryModel::Rich(b));
    }
}

proof fn lemma_reducers(e: Seq<crate::models::RefEntryModel>, n: int, b: RefBindingModel)
    requires
        0 <= n <= e.len(),
    ensures
        crate::models::reducer_bindings(e, n).contains(b) <==> b.reducer is Some && exists|i: int|
            0 <= i < n && #[trigger] e[i] == crate::models::RefEntryModel::Rich(b),
    decreases n,
{
    if n > 0 {
        lemma_reducers(e, n - 1, b);
        let before = crate::models::reducer_bindings(e, n - 1);
        let now = crate::models::reducer_bindings(e, n);
        if before.contains(b) {
            let k = choose|k: int| 0 <= k < before.len() && before[k] == b;
            assert(now[k] == b);
        }
        if now.len() > before.len() {
            assert(now[before.len() as int] == e[n - 1]->Rich_0);
        }
        if now.contains(b) && !before.contains(b) {
            let k = choose|k: int| 0 <= k < now.len() && now[k] == b;
            assert(k == before.len());
        }
    }
}

} // verus!
