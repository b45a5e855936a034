//! What models promise: nothing that a declaration says is lost in its model, and numbers are
//! ordered as they are counted.
use vstd::prelude::*;

use crate::models::{
    ArgEntry, CaseDelta, DataQuality, DatasetEntry, Field, FieldVariant, ImportSpec, Include,
    ListContent, Normalize, Num, Output, OutputSpec, RefBinding, RefEntry, RefsSpec,
    SyntheticDataset, UnionCase, VariantSchema, YamlModel, YamlValue,
};
use crate::text::{opt_text, texts};

verus! {

/// The two lists of values have the same models, one by one.
pub open spec fn same_values(a: Seq<YamlValue>, b: Seq<YamlValue>) -> bool {
    &&& a.len() == b.len()
    &&& forall|i: int| 0 <= i < a.len() ==> (#[trigger] a[i]).model() == b[i].model()
}

/// The two lists of fields have the same models, one by one.
pub open spec fn same_fields(a: Seq<Field>, b: Seq<Field>) -> bool {
    &&& a.len() == b.len()
    &&& forall|i: int| 0 <= i < a.len() ==> (#[trigger] a[i]).model() == b[i].model()
}

/// The two lists of alternatives have the same models, one by one.
pub open spec fn same_variants(a: Seq<FieldVariant>, b: Seq<FieldVariant>) -> bool {
    &&& a.len() == b.len()
    &&& forall|i: int| 0 <= i < a.len() ==> (#[trigger] a[i]).model() == b[i].model()
}

proof fn lemma_same_values(a: Seq<YamlValue>, b: Seq<YamlValue>)
    requires
        crate::models::yaml_values_model(a) == crate::models::yaml_values_model(b),
    ensures
        same_values(a, b),
{
    let x = crate::models::yaml_values_model(a);
    let y = crate::models::yaml_values_model(b);
    assert(x.len() == a.len() && y.len() == b.len());
    assert forall|i: int| 0 <= i < a.len() implies (#[trigger] a[i]).model() == b[i].model() by {
        assert(x[i] == y[i]);
    }
}

proof fn lemma_same_fields(a: Seq<Field>, b: Seq<Field>)
    requires
        crate::models::fields_model(a) == crate::models::fields_model(b),
    ensures
        same_fields(a, b),
{
    reveal_with_fuel(crate::models::fields_model, 2);
    let x = crate::models::fields_model(a);
    let y = crate::models::fields_model(b);
    assert(x.len() == a.len() && y.len() == b.len());
    assert forall|i: int| 0 <= i < a.len() implies (#[trigger] a[i]).model() == b[i].model() by {
        assert(x[i] == y[i]);
    }
}

proof fn lemma_same_variants(a: Seq<FieldVariant>, b: Seq<FieldVariant>)
    requires
        crate::models::field_variants_model(a) == crate::models::field_variants_model(b),
    ensures
        same_variants(a, b),
{
    reveal_with_fuel(crate::models::field_variants_model, 2);
    let x = crate::models::field_variants_model(a);
    let y = crate::models::field_variants_model(b);
    assert(x.len() == a.len() && y.len() == b.len());
    assert forall|i: int| 0 <= i < a.len() implies (#[trigger] a[i]).model() == b[i].model() by {
        assert(x[i] == y[i]);
    }
}

/// Values with the same model are the same value.
pub proof fn law_value_models_lose_nothing(a: YamlValue, b: YamlValue)
    requires
        a.model() == b.model(),
    ensures
        a is Null <==> b is Null,
        a is Bool ==> b is Bool && a->Bool_0 == b->Bool_0,
        a is Int ==> b is Int && a->value == b->value && a->num == b->num,
        a is Float ==> b is Float && a->Float_0 == b->Float_0,
        a is Text ==> b is Text && a->Text_0@ == b->Text_0@,
        a is Sequence ==> b is Sequence && a->len == b->len && a->Sequence_text@
            == b->Sequence_text@,
        a is Mapping ==> b is Mapping && a->Mapping_text@ == b->Mapping_text@,
{
}

/// Fields with the same model say the same in everything.
pub proof fn law_field_models_lose_nothing(a: Field, b: Field)
    requires
        a.model() == b.model(),
    ensures
        a.name@ == b.name@,
        a.field_type == b.field_type,
        a.refs is Some <==> b.refs is Some,
        a.refs is Some ==> a.refs->0.model() == b.refs->0.model(),
        a.generator == b.generator,
        a.locale == b.locale,
        a.range == b.range,
        a.value is Some <==> b.value is Some,
        a.value is Some ==> a.value->0.model() == b.value->0.model(),
        a.one_of is Some <==> b.one_of is Some,
        a.one_of is Some ==> same_values(a.one_of->0@, b.one_of->0@),
        a.preserve_marginal == b.preserve_marginal,
        a.constrain_cases.len() == b.constrain_cases.len(),
        forall|i: int|
            0 <= i < a.constrain_cases.len() ==> (#[trigger] a.constrain_cases@[i]).model()
                == b.constrain_cases@[i].model(),
        same_fields(a.fields@, b.fields@),
        a.content is Some <==> b.content is Some,
        a.content is Some ==> a.content->0.model() == b.content->0.model(),
        a.normalize is Some <==> b.normalize is Some,
        a.normalize is Some ==> a.normalize->0.model() == b.normalize->0.model(),
        same_variants(a.variants@, b.variants@),
        a.union_cases.len() == b.union_cases.len(),
        a.parquet == b.parquet,
        a.flatten == b.flatten,
        a.flatten_strategy == b.flatten_strategy,
        opt_text(a.expression) == opt_text(b.expression),
        a.expression is Some ==> b.expression is Some && a.expression->0@ == b.expression->0@,
        a.hidden == b.hidden,
        a.imported_taint == b.imported_taint,
        a.constraint_bearing == b.constraint_bearing,
        a.count == b.count,
        a.precision == b.precision,
        a.default is Some <==> b.default is Some,
        a.default is Some ==> a.default->0.model() == b.default->0.model(),
        a.quality is Some <==> b.quality is Some,
        a.quality is Some ==> a.quality->0.model() == b.quality->0.model(),
        a.after is Some ==> b.after is Some && a.after->0@ == b.after->0@,
        a.before is Some ==> b.before is Some && a.before->0@ == b.before->0@,
        a.after is None ==> b.after is None,
        a.before is None ==> b.before is None,
        a.args is Some <==> b.args is Some,
        a.args is Some ==> a.args->0.len() == b.args->0.len() && forall|i: int|
            0 <= i < a.args->0.len() ==> (#[trigger] a.args->0@[i]).model() == b.args->0@[i].model(),
{
    reveal_with_fuel(Field::model, 2);
    reveal_with_fuel(crate::models::union_cases_model, 2);
    let x = a.model();
    let y = b.model();
    lemma_same_fields(a.fields@, b.fields@);
    lemma_same_variants(a.variants@, b.variants@);
    if a.one_of is Some {
        lemma_same_values(a.one_of->0@, b.one_of->0@);
    }
    let c = crate::models::case_deltas_model(a.constrain_cases@);
    let d = crate::models::case_deltas_model(b.constrain_cases@);
    assert(c == d);
    assert(c.len() == a.constrain_cases@.len() && d.len() == b.constrain_cases@.len());
    assert forall|i: int| 0 <= i < a.constrain_cases.len() implies (
    #[trigger] a.constrain_cases@[i]).model() == b.constrain_cases@[i].model() by {
        assert(c[i] == d[i]);
    }
    assert(crate::models::union_cases_model(a.union_cases@).len() == a.union_cases@.len());
    assert(crate::models::union_cases_model(b.union_cases@).len() == b.union_cases@.len());
    if a.args is Some {
        let e = crate::models::arg_entries_model(a.args->0@);
        let f = crate::models::arg_entries_model(b.args->0@);
        assert(e == f);
        assert(e.len() == a.args->0@.len() && f.len() == b.args->0@.len());
        assert forall|i: int| 0 <= i < a.args->0.len() implies (#[trigger] a.args->0@[i]).model()
            == b.args->0@[i].model() by {
            assert(e[i] == f[i]);
        }
    }
}

/// Alternatives with the same model say the same in everything.
pub proof fn law_variant_models_lose_nothing(a: FieldVariant, b: FieldVariant)
    requires
        a.model() == b.model(),
    ensures
        opt_text(a.name) == opt_text(b.name),
        a.name is Some ==> b.name is Some && a.name->0@ == b.name->0@,
        a.field_type == b.field_type,
        a.generator == b.generator,
        a.locale == b.locale,
        a.range == b.range,
        a.value is Some <==> b.value is Some,
        a.value is Some ==> a.value->0.model() == b.value->0.model(),
        same_fields(a.fields@, b.fields@),
        a.parquet == b.parquet,
        a.ratio == b.ratio,
{
    reveal_with_fuel(FieldVariant::model, 2);
    lemma_same_fields(a.fields@, b.fields@);
}

/// Contents of lists with the same model say the same in everything.
pub proof fn law_content_models_lose_nothing(a: ListContent, b: ListContent)
    requires
        a.model() == b.model(),
    ensures
        a.from is Some ==> b.from is Some && a.from->0@ == b.from->0@,
        a.from is None ==> b.from is None,
        a.project is Some ==> b.project is Some && a.project->0@ == b.project->0@,
        a.project is None ==> b.project is None,
        a.item.model() == b.item.model(),
{
    reveal_with_fuel(ListContent::model, 2);
}

/// Cases of unions with the same model say the same in everything.
pub proof fn law_case_models_lose_nothing(a: UnionCase, b: UnionCase)
    requires
        a.model() == b.model(),
    ensures
        a.field.model() == b.field.model(),
        a.ratio == b.ratio,
{
    reveal_with_fuel(UnionCase::model, 2);
}

/// Specialisations, arguments and rescalings with the same model say the same in everything.
pub proof fn law_part_models_lose_nothing(
    a: CaseDelta,
    b: CaseDelta,
    c: ArgEntry,
    d: ArgEntry,
    e: Normalize,
    f: Normalize,
)
    ensures
        a.model() == b.model() ==> {
            &&& a.name@ == b.name@
            &&& a.generator == b.generator
            &&& a.range == b.range
            &&& a.value is Some <==> b.value is Some
            &&& a.value is Some ==> a.value->0.model() == b.value->0.model()
        },
        c.model() == d.model() ==> c.key@ == d.key@ && c.value.model() == d.value.model(),
        e.model() == f.model() ==> {
            &&& e.total == f.total
            &&& opt_text(e.field) == opt_text(f.field)
            &&& opt_text(e.into) == opt_text(f.into)
            &&& e.precision == f.precision
        },
{
}

/// Bindings and references with the same model say the same in everything.
pub proof fn law_reference_models_lose_nothing(
    a: RefBinding,
    b: RefBinding,
    c: RefEntry,
    d: RefEntry,
    e: RefsSpec,
    f: RefsSpec,
)
    ensures
        a.model() == b.model() ==> {
            &&& opt_text(a.target) == opt_text(b.target)
            &&& opt_text(a.bind) == opt_text(b.bind)
            &&& a.reducer == b.reducer
        },
        c.model() == d.model() ==> {
            &&& c is Simple ==> d is Simple && c->Simple_0@ == d->Simple_0@
            &&& c is Rich ==> d is Rich && c->Rich_0.model() == d->Rich_0.model()
        },
        e.model() == f.model() ==> {
            &&& e is Single ==> f is Single && e->Single_0@ == f->Single_0@
            &&& e is Multi ==> f is Multi && e->Multi_0@.len() == f->Multi_0@.len()
        },
{
    if e.model() == f.model() && e is Multi {
        let x = crate::models::ref_entries_model(e->Multi_0@);
        let y = crate::models::ref_entries_model(f->Multi_0@);
        assert(x == y);
        assert(x.len() == e->Multi_0@.len() && y.len() == f->Multi_0@.len());
    }
}

/// Degradations and outputs with the same model say the same in everything.
pub proof fn law_quality_models_lose_nothing(
    a: DataQuality,
    b: DataQuality,
    c: Output,
    d: Output,
    e: OutputSpec,
    f: OutputSpec,
)
    ensures
        a.model() == b.model() ==> {
            &&& a.duplication == b.duplication
            &&& a.missing == b.missing
            &&& a.nulls == b.nulls
            &&& a.default_rate == b.default_rate
            &&& a.corruptions == b.corruptions
            &&& a.default_values is Some <==> b.default_values is Some
            &&& a.default_values is Some ==> same_values(
                a.default_values->0@,
                b.default_values->0@,
            )
            &&& a.defaults_mode == b.defaults_mode
        },
        c.model() == d.model() ==> {
            &&& c.file@ == d.file@
            &&& c.quality is Some <==> d.quality is Some
            &&& c.quality is Some ==> c.quality->0.model() == d.quality->0.model()
        },
        e.model() == f.model() ==> {
            &&& e is Shorthand ==> f is Shorthand && e->Shorthand_0@ == f->Shorthand_0@
            &&& e is Block ==> f is Block && e->Block_0.model() == f->Block_0.model()
        },
{
    if a.model() == b.model() && a.default_values is Some {
        lemma_same_values(a.default_values->0@, b.default_values->0@);
    }
}

/// Includes, links and imports with the same model say the same in everything.
pub proof fn law_include_models_lose_nothing(
    a: Include,
    b: Include,
    c: ImportSpec,
    d: ImportSpec,
)
    ensures
        a.model() == b.model() ==> {
            &&& a.file@ == b.file@
            &&& opt_text(a.resolved) == opt_text(b.resolved)
            &&& a.reference@ == b.reference@
            &&& a.ratio == b.ratio
            &&& a.cardinality == b.cardinality
            &&& a.reinforcement == b.reinforcement
            &&& a.overlap == b.overlap
            &&& texts(a.fields@) == texts(b.fields@)
            &&& a.exclude is Some <==> b.exclude is Some
            &&& a.exclude is Some ==> texts(a.exclude->0@) == texts(b.exclude->0@)
        },
        c.model() == d.model() ==> {
            &&& c.file@ == d.file@
            &&& c.reference@ == d.reference@
            &&& texts(c.fields@) == texts(d.fields@)
            &&& c.exclude is Some <==> d.exclude is Some
            &&& c.exclude is Some ==> texts(c.exclude->0@) == texts(d.exclude->0@)
            &&& c.ring == d.ring
            &&& c.total_rows == d.total_rows
        },
{
}

/// Datasets with the same model say the same in everything.
pub proof fn law_dataset_models_lose_nothing(
    a: SyntheticDataset,
    b: SyntheticDataset,
    c: VariantSchema,
    d: VariantSchema,
    e: DatasetEntry,
    f: DatasetEntry,
)
    ensures
        a.model() == b.model() ==> {
            &&& a.name@ == b.name@
            &&& a.format == b.format
            &&& a.locale == b.locale
            &&& a.rows == b.rows
            &&& a.output is Some <==> b.output is Some
            &&& a.output is Some ==> a.output->0.model() == b.output->0.model()
            &&& a.outputs.len() == b.outputs.len()
            &&& a.include_spec is Some <==> b.include_spec is Some
            &&& a.include_spec is Some ==> a.include_spec->0.model() == b.include_spec->0.model()
            &&& a.import is Some <==> b.import is Some
            &&& a.import is Some ==> a.import->0.model() == b.import->0.model()
            &&& a.links.len() == b.links.len()
            &&& forall|i: int|
                0 <= i < a.links.len() ==> (#[trigger] a.links@[i]).model() == b.links@[i].model()
            &&& same_fields(a.data@, b.data@)
            &&& a.variants.len() == b.variants.len()
        },
        c.model() == d.model() ==> same_fields(c.data@, d.data@) && c.locale == d.locale && c.ratio
            == d.ratio,
        e.model() == f.model() ==> e.path@ == f.path@ && e.dataset.model() == f.dataset.model(),
{
    if a.model() == b.model() {
        lemma_same_fields(a.data@, b.data@);
        let x = crate::models::includes_model(a.links@);
        let y = crate::models::includes_model(b.links@);
        assert(x == y);
        assert(x.len() == a.links@.len() && y.len() == b.links@.len());
        assert forall|i: int| 0 <= i < a.links.len() implies (#[trigger] a.links@[i]).model()
            == b.links@[i].model() by {
            assert(x[i] == y[i]);
        }
        assert(crate::models::output_specs_model(a.outputs@).len() == a.outputs@.len());
        assert(crate::models::output_specs_model(b.outputs@).len() == b.outputs@.len());
        assert(crate::models::variant_schemas_model(a.variants@).len() == a.variants@.len());
        assert(crate::models::variant_schemas_model(b.variants@).len() == b.variants@.len());
    }
    if c.model() == d.model() {
        lemma_same_fields(c.data@, d.data@);
    }
}

// ---------------------------------------------------------------------------
// Numbers
// ---------------------------------------------------------------------------

/// The larger of two numbers is one of them and below neither, the smaller one of them and above
/// neither; what is not a number gives way.
pub proof fn law_larger_and_smaller(a: Num, b: Num)
    ensures
        a.larger(b) == a || a.larger(b) == b,
        a.smaller(b) == a || a.smaller(b) == b,
        !a.nan() && !b.nan() ==> a.key <= a.larger(b).key && b.key <= a.larger(b).key,
        !a.nan() && !b.nan() ==> a.smaller(b).key <= a.key && a.smaller(b).key <= b.key,
        a.nan() && !b.nan() ==> a.larger(b) == b && a.smaller(b) == b,
        b.nan() && !a.nan() ==> a.larger(b) == a && a.smaller(b) == a,
{
}

/// Numbers are compared by their keys; what is not a number is neither below nor at most anything.
pub proof fn law_numbers_are_ordered_by_key(a: Num, b: Num)
    ensures
        !a.nan() && !b.nan() ==> (a.below(b) <==> a.key < b.key) && (a.at_most(b) <==> a.key
            <= b.key),
        a.nan() || b.nan() ==> !a.below(b) && !a.at_most(b),
{
}

/// A value is a count exactly where it is a whole number that is not negative and fits.
pub proof fn law_counts_are_whole_numbers(v: YamlModel, n: u64)
    ensures
        v.count() == Some(n) <==> v is Int && v->value == n,
        v.num() is Some <==> v is Int || v is Float,
        v is Float ==> v.num() == Some(v->Float_0),
        v is Int ==> v.num() == Some(v->num),
{
}

} // verus!
