//! Variant fields: choices of different types become tagged unions, choices that specialise a
//! reference become variants of the dataset, and the others stay for generation row by row.
use vstd::prelude::*;

use crate::message::join3;
use crate::models::{
    clone_field_variants, clone_fields, clone_opt_refs_spec, clone_opt_yaml_value,
    default_field_model, entries_model, field_position, field_variants_model, fields_model,
    find_field, opt_refs_spec_model, schemas_model, union_cases_model, variant_schemas_model,
    DatasetEntry, DatasetEntryModel, Field, FieldModel, FieldType, FieldVariant, FieldVariantModel,
    Num, ParquetConfig, RefsSpec, RefsSpecModel, SyntheticDatasetModel, UnionCase, UnionCaseModel,
    VariantSchema, VariantSchemaModel, YamlModel, YamlValue,
};
use crate::text::{clone_texts, decimal, decimal_text, texts};

verus! {

// ---------------------------------------------------------------------------
// Types of choices
// ---------------------------------------------------------------------------

/// The type that a constant has.
pub open spec fn value_type(v: YamlModel) -> Option<FieldType> {
    match v {
        YamlModel::Text(_) => Some(FieldType::String),
        YamlModel::Int { .. } => Some(FieldType::Number),
        YamlModel::Float(_) => Some(FieldType::Number),
        YamlModel::Bool(_) => Some(FieldType::Boolean),
        _ => None,
    }
}

/// The type of a choice: its own, else a number where it has a range, else that of its constant,
/// else an object where it has nested fields.
pub open spec fn inferred(v: FieldVariantModel) -> Option<FieldType> {
    if v.field_type is Some {
        v.field_type
    } else if v.range is Some && (v.range->0.min is Some || v.range->0.max is Some) {
        Some(FieldType::Number)
    } else if v.value is Some && value_type(v.value->0) is Some {
        value_type(v.value->0)
    } else if v.fields.len() > 0 {
        Some(FieldType::Object)
    } else {
        None
    }
}

/// The type of a choice, see [`inferred`].
pub fn infer_field_type(variant: &FieldVariant) -> (r: Option<FieldType>)
    ensures
        r == inferred(variant.model()),
{
    if variant.field_type.is_some() {
        return variant.field_type;
    }
    if let Some(range) = variant.range {
        if range.min.is_some() || range.max.is_some() {
            return Some(FieldType::Number);
        }
    }
    if let Some(v) = &variant.value {
        match v {
            YamlValue::Text(_) => {
                return Some(FieldType::String);
            },
            YamlValue::Int { .. } => {
                return Some(FieldType::Number);
            },
            YamlValue::Float(_) => {
                return Some(FieldType::Number);
            },
            YamlValue::Bool(_) => {
                return Some(FieldType::Boolean);
            },
            _ => {},
        }
    }
    if variant.fields.len() > 0 {
        Some(FieldType::Object)
    } else {
        None
    }
}

/// Two choices have known types that differ.
pub open spec fn differ(a: FieldVariantModel, b: FieldVariantModel) -> bool {
    inferred(a) is Some && inferred(b) is Some && inferred(a) != inferred(b)
}

/// Choices that no single column type can hold: one is an object, or two types differ.
pub open spec fn mixed(s: Seq<FieldVariantModel>) -> bool {
    ||| exists|i: int| 0 <= i < s.len() && inferred(#[trigger] s[i]) == Some(FieldType::Object)
    ||| disagree(s)
}

/// Some two choices have different types.
pub open spec fn disagree(s: Seq<FieldVariantModel>) -> bool {
    exists|i: int, j: int| 0 <= i < j < s.len() && differ(#[trigger] s[i], #[trigger] s[j])
}

/// The first known type from position `i` on.
pub open spec fn first_type(s: Seq<FieldVariantModel>, i: int) -> Option<FieldType>
    decreases s.len() - i,
{
    if i < 0 || i >= s.len() {
        None
    } else if inferred(s[i]) is Some {
        inferred(s[i])
    } else {
        first_type(s, i + 1)
    }
}

/// The one type that all choices share, if they do.
pub open spec fn shared_type(s: Seq<FieldVariantModel>) -> Option<FieldType> {
    if disagree(s) {
        None
    } else {
        first_type(s, 0)
    }
}

/// The first known type, and whether the types differ.
fn survey(choices: &Vec<FieldVariant>) -> (r: (Option<FieldType>, bool))
    ensures
        r.0 == first_type(field_variants_model(choices@), 0),
        r.1 == disagree(field_variants_model(choices@)),
{
    let ghost cm = field_variants_model(choices@);
    let mut first: Option<FieldType> = None;
    let mut differs = false;
    let mut i: usize = 0;
    while i < choices.len()
        invariant
            i <= choices.len(),
            cm == field_variants_model(choices@),
            first is None ==> first_type(cm, 0) == first_type(cm, i as int) && forall|j: int|
                0 <= j < i ==> inferred(#[trigger] cm[j]) is None,
            first is Some ==> first_type(cm, 0) == first && exists|j: int|
                0 <= j < i && inferred(#[trigger] cm[j]) == first,
            !differs ==> forall|j: int|
                0 <= j < i ==> inferred(#[trigger] cm[j]) is None || inferred(cm[j]) == first,
            differs ==> disagree(cm),
        decreases choices.len() - i,
    {
        assert(cm[i as int] == choices[i as int].model());
        let t = infer_field_type(&choices[i]);
        if let Some(a) = t {
            match first {
                Some(b) => {
                    if a != b {
                        proof {
                            let j = choose|j: int| 0 <= j < i && inferred(#[trigger] cm[j]) == first;
                            assert(differ(cm[j], cm[i as int]));
                        }
                        differs = true;
                    }
                },
                None => {
                    first = Some(a);
                },
            }
        }
        i += 1;
    }
    assert(!differs ==> !disagree(cm));
    (first, differs)
}

/// True when the choices need a tagged union, see [`mixed`].
pub fn is_heterogeneous(choices: &Vec<FieldVariant>) -> (r: bool)
    ensures
        r == mixed(field_variants_model(choices@)),
{
    let ghost cm = field_variants_model(choices@);
    let mut i: usize = 0;
    while i < choices.len()
        invariant
            i <= choices.len(),
            cm == field_variants_model(choices@),
            forall|j: int| 0 <= j < i ==> inferred(#[trigger] cm[j]) != Some(FieldType::Object),
        decreases choices.len() - i,
    {
        assert(cm[i as int] == choices[i as int].model());
        if infer_field_type(&choices[i]) == Some(FieldType::Object) {
            return true;
        }
        i += 1;
    }
    let (_, differs) = survey(choices);
    differs
}

/// The one type that all choices share, if they do.
pub fn unified_variant_type(choices: &Vec<FieldVariant>) -> (r: Option<FieldType>)
    ensures
        r == shared_type(field_variants_model(choices@)),
{
    let (first, differs) = survey(choices);
    if differs {
        None
    } else {
        first
    }
}

/// Choices that share a type are not mixed, unless that type is an object.
pub proof fn law_shared_type_is_not_mixed(s: Seq<FieldVariantModel>)
    requires
        shared_type(s) is Some,
        shared_type(s) != Some(FieldType::Object),
    ensures
        !mixed(s),
{
    lemma_first_type(s, 0);
    let f = choose|f: int| 0 <= f < s.len() && inferred(#[trigger] s[f]) == first_type(s, 0);
    assert forall|i: int| 0 <= i < s.len() implies inferred(#[trigger] s[i]) != Some(
        FieldType::Object,
    ) by {
        if inferred(s[i]) == Some(FieldType::Object) {
            if f < i {
                assert(differ(s[f], s[i]));
            } else {
                assert(differ(s[i], s[f]));
            }
        }
    }
}

proof fn lemma_first_type(s: Seq<FieldVariantModel>, i: int)
    requires
        0 <= i,
        first_type(s, i) is Some,
    ensures
        exists|f: int| i <= f < s.len() && inferred(#[trigger] s[f]) == first_type(s, i),
    decreases s.len() - i,
{
    if i < s.len() {
        if inferred(s[i]) is None {
            lemma_first_type(s, i + 1);
        } else {
            assert(inferred(s[i]) == first_type(s, i));
        }
    }
}

// ---------------------------------------------------------------------------
// Tagged unions
// ---------------------------------------------------------------------------

/// The name of a union case: its label, else the field's name and the position.
pub open spec fn case_name(field: Seq<char>, label: Option<Seq<char>>, i: int) -> Seq<char> {
    match label {
        Some(l) => if l.len() > 0 {
            l
        } else {
            field + "_"@ + decimal_text(i as nat)
        },
        None => field + "_"@ + decimal_text(i as nat),
    }
}

/// The field that one union case generates.
pub open spec fn case_field(name: Seq<char>, v: FieldVariantModel) -> FieldModel {
    FieldModel {
        name,
        field_type: inferred(v),
        generator: v.generator,
        locale: v.locale,
        range: v.range,
        value: v.value,
        fields: v.fields,
        parquet: v.parquet,
        ..default_field_model()
    }
}

/// The cases of a union, one for each choice.
pub open spec fn cases_of(field: Seq<char>, s: Seq<FieldVariantModel>) -> Seq<UnionCaseModel> {
    Seq::new(
        s.len(),
        |i: int|
            UnionCaseModel {
                field: case_field(case_name(field, s[i].name, i), s[i]),
                ratio: s[i].ratio,
            },
    )
}

/// A field after mixed variants have become unions, here and inside objects.
pub open spec fn lowered(f: FieldModel) -> FieldModel
    decreases f,
{
    match f.field_type {
        Some(FieldType::Variant) => if mixed(f.variants) {
            FieldModel {
                field_type: Some(FieldType::Union),
                union_cases: cases_of(f.name, f.variants),
                variants: Seq::empty(),
                ..f
            }
        } else {
            f
        },
        Some(FieldType::Object) => FieldModel { fields: lowered_all(f.fields), ..f },
        _ => f,
    }
}

/// Fields after mixed variants have become unions.
pub open spec fn lowered_all(s: Seq<FieldModel>) -> Seq<FieldModel>
    decreases s,
{
    Seq::new(
        s.len(),
        |i: int|
            if 0 <= i < s.len() {
                lowered(s[i])
            } else {
                arbitrary()
            },
    )
}

fn build_union_case_field(choice: &FieldVariant, name: String) -> (r: Field)
    ensures
        r.model() == case_field(name@, choice.model()),
{
    let mut r = Field::default();
    r.name = name;
    r.field_type = infer_field_type(choice);
    r.generator = choice.generator;
    r.locale = choice.locale;
    r.range = choice.range;
    r.value = clone_opt_yaml_value(&choice.value);
    r.fields = clone_fields(&choice.fields);
    r.parquet = choice.parquet;
    assert(r.model() == case_field(name@, choice.model()));
    r
}

fn build_cases(field: &str, choices: &Vec<FieldVariant>) -> (r: Vec<UnionCase>)
    ensures
        union_cases_model(r@) == cases_of(field@, field_variants_model(choices@)),
{
    let ghost cm = field_variants_model(choices@);
    let mut r: Vec<UnionCase> = Vec::new();
    let mut i: usize = 0;
    while i < choices.len()
        invariant
            i <= choices.len(),
            cm == field_variants_model(choices@),
            r.len() == i,
            forall|j: int|
                0 <= j < i ==> (#[trigger] r[j]).model() == cases_of(field@, cm)[j],
        decreases choices.len() - i,
    {
        let choice = &choices[i];
        assert(cm[i as int] == choice.model());
        let name = match &choice.name {
            Some(l) => if l.as_str().unicode_len() > 0 {
                l.clone()
            } else {
                join3(field, "_", &decimal(i as u64))
            },
            None => join3(field, "_", &decimal(i as u64)),
        };
        assert(name@ == case_name(field@, cm[i as int].name, i as int));
        let case = UnionCase { field: build_union_case_field(choice, name), ratio: choice.ratio };
        assert(case.model() == cases_of(field@, cm)[i as int]);
        r.push(case);
        i += 1;
    }
    assert(union_cases_model(r@) =~= cases_of(field@, cm));
    r
}

fn lower_field(field: &Field) -> (r: Field)
    ensures
        r.model() == lowered(field.model()),
    decreases field,
{
    match field.field_type {
        Some(FieldType::Variant) => {
            let mut r = field.clone();
            if is_heterogeneous(&field.variants) {
                r.field_type = Some(FieldType::Union);
                r.union_cases = build_cases(&field.name, &field.variants);
                r.variants = Vec::new();
                assert(r.model().variants =~= Seq::empty());
                assert(r.model() == lowered(field.model()));
            }
            r
        },
        Some(FieldType::Object) => {
            let fields = lower_heterogeneous_unions(&field.fields);
            let mut r = field.clone();
            r.fields = fields;
            assert(r.model().fields == lowered(field.model()).fields);
            assert(r.model() == lowered(field.model()));
            r
        },
        _ => field.clone(),
    }
}

fn lower_heterogeneous_unions(schema: &Vec<Field>) -> (r: Vec<Field>)
    ensures
        fields_model(r@) == lowered_all(fields_model(schema@)),
    decreases schema,
{
    let ghost fm = fields_model(schema@);
    let mut r: Vec<Field> = Vec::new();
    let mut i: usize = 0;
    while i < schema.len()
        invariant
            i <= schema.len(),
            fm == fields_model(schema@),
            r.len() == i,
            forall|j: int| 0 <= j < i ==> (#[trigger] r[j]).model() == lowered(schema[j].model()),
        decreases schema.len() - i,
    {
        let f = lower_field(&schema[i]);
        r.push(f);
        i += 1;
    }
    proof {
        assert forall|j: int| 0 <= j < fm.len() implies #[trigger] fields_model(r@)[j]
            == lowered_all(fm)[j] by {
            assert(fm[j] == schema[j].model());
        }
    }
    assert(fields_model(r@) =~= lowered_all(fm));
    r
}

/// No field is a variant with mixed choices, at any depth of nested objects.
pub open spec fn no_mixed_variant(f: FieldModel) -> bool
    decreases f,
{
    match f.field_type {
        Some(FieldType::Variant) => !mixed(f.variants),
        Some(FieldType::Object) => no_mixed_variants(f.fields),
        _ => true,
    }
}

/// None of the fields is a variant with mixed choices.
pub open spec fn no_mixed_variants(s: Seq<FieldModel>) -> bool
    decreases s,
{
    forall|i: int| 0 <= i < s.len() ==> no_mixed_variant(#[trigger] s[i])
}

/// Lowering leaves no variant with mixed choices behind, at any depth of nested objects.
pub proof fn law_lowering_removes_mixed_variants(f: FieldModel)
    ensures
        no_mixed_variant(lowered(f)),
    decreases f,
{
    if f.field_type == Some(FieldType::Object) {
        let r = lowered(f);
        assert(r.fields == lowered_all(f.fields));
        assert forall|i: int| 0 <= i < r.fields.len() implies no_mixed_variant(
            #[trigger] r.fields[i],
        ) by {
            assert(r.fields[i] == lowered(f.fields[i]));
            law_lowering_removes_mixed_variants(f.fields[i]);
        }
        assert(no_mixed_variants(r.fields));
    }
}

// ---------------------------------------------------------------------------
// Choices that specialise a reference
// ---------------------------------------------------------------------------

/// A field that both refers to another and has choices.
#[derive(Debug)]
pub struct VariantPath {
    /// The names from the outermost object down to the field.
    pub path: Vec<String>,
    pub choices: Vec<FieldVariant>,
    /// Column settings of the field, for choices without their own.
    pub parquet: Option<ParquetConfig>,
    pub refs: Option<RefsSpec>,
}

/// What a [`VariantPath`] says, free of representation.
pub struct VariantPathModel {
    pub path: Seq<Seq<char>>,
    pub choices: Seq<FieldVariantModel>,
    pub parquet: Option<ParquetConfig>,
    pub refs: Option<RefsSpecModel>,
}

impl VariantPath {
    /// The content of this value, free of representation.
    pub open spec fn model(self) -> VariantPathModel {
        VariantPathModel {
            path: texts(self.path@),
            choices: field_variants_model(self.choices@),
            parquet: self.parquet,
            refs: opt_refs_spec_model(self.refs),
        }
    }
}

/// The models of a sequence of paths.
pub open spec fn paths_model(s: Seq<VariantPath>) -> Seq<VariantPathModel> {
    Seq::new(s.len(), |i: int| s[i].model())
}

/// The specialising fields among the first `n`, inside objects too, in reading order.
pub open spec fn variant_paths(s: Seq<FieldModel>, prefix: Seq<Seq<char>>, n: int) -> Seq<
    VariantPathModel,
>
    decreases s, n,
{
    if n <= 0 || n > s.len() {
        Seq::empty()
    } else {
        let before = variant_paths(s, prefix, n - 1);
        let f = s[n - 1];
        let path = prefix.push(f.name);
        if f.refs is Some && f.variants.len() > 0 {
            before.push(
                VariantPathModel { path, choices: f.variants, parquet: f.parquet, refs: f.refs },
            )
        } else if f.field_type == Some(FieldType::Object) {
            before + variant_paths(f.fields, path, f.fields.len() as int)
        } else {
            before
        }
    }
}

fn collect_variant_paths(schema: &Vec<Field>, prefix: &Vec<String>) -> (r: Vec<VariantPath>)
    ensures
        paths_model(r@) == variant_paths(
            fields_model(schema@),
            texts(prefix@),
            schema.len() as int,
        ),
    decreases schema,
{
    let ghost fm = fields_model(schema@);
    let mut r: Vec<VariantPath> = Vec::new();
    let mut i: usize = 0;
    assert(paths_model(r@) =~= Seq::empty());
    while i < schema.len()
        invariant
            i <= schema.len(),
            fm == fields_model(schema@),
            paths_model(r@) == variant_paths(fm, texts(prefix@), i as int),
        decreases schema.len() - i,
    {
        let field = &schema[i];
        assert(fm[i as int] == field.model());
        let mut path = clone_texts(prefix);
        path.push(field.name.clone());
        assert(texts(path@) =~= texts(prefix@).push(field.name@));
        let ghost before = r@;
        if field.refs.is_some() && field.variants.len() > 0 {
            let p = VariantPath {
                path,
                choices: clone_field_variants(&field.variants),
                parquet: field.parquet,
                refs: clone_opt_refs_spec(&field.refs),
            };
            r.push(p);
            assert(paths_model(r@) =~= paths_model(before).push(p.model()));
        } else if field.field_type == Some(FieldType::Object) {
            let mut inner = collect_variant_paths(&field.fields, &path);
            let ghost im = inner@;
            r.append(&mut inner);
            assert(paths_model(r@) =~= paths_model(before) + paths_model(im));
            assert(fm[i as int].fields == fields_model(field.fields@));
        }
        i += 1;
    }
    r
}

/// The innermost field of a choice.
pub open spec fn leaf_field(
    name: Seq<char>,
    v: FieldVariantModel,
    outer: Option<ParquetConfig>,
    refs: Option<RefsSpecModel>,
) -> FieldModel {
    FieldModel {
        name,
        field_type: inferred(v),
        refs,
        generator: v.generator,
        locale: v.locale,
        range: v.range,
        value: v.value,
        parquet: if v.parquet is Some {
            v.parquet
        } else {
            outer
        },
        ..default_field_model()
    }
}

/// An object with one field inside.
pub open spec fn wrapped(name: Seq<char>, inner: FieldModel) -> FieldModel {
    FieldModel {
        name,
        field_type: Some(FieldType::Object),
        fields: seq![inner],
        ..default_field_model()
    }
}

/// What one choice says of the field at `path`, wrapped in its objects.
pub open spec fn delta_field(
    path: Seq<Seq<char>>,
    v: FieldVariantModel,
    outer: Option<ParquetConfig>,
    refs: Option<RefsSpecModel>,
) -> FieldModel
    decreases path.len(),
{
    if path.len() <= 1 {
        leaf_field(path[0], v, outer, refs)
    } else {
        wrapped(path[0], delta_field(path.subrange(1, path.len() as int), v, outer, refs))
    }
}

/// What one choice says of the field at `path`, wrapped in its objects.
pub fn build_delta_field(
    path: &Vec<String>,
    variant: &FieldVariant,
    outer_parquet: Option<&ParquetConfig>,
    refs: Option<&RefsSpec>,
) -> (r: Field)
    requires
        path.len() > 0,
    ensures
        r.model() == delta_field(
            texts(path@),
            variant.model(),
            match outer_parquet {
                Some(p) => Some(*p),
                None => None,
            },
            match refs {
                Some(s) => Some(s.model()),
                None => None,
            },
        ),
{
    let ghost pm = texts(path@);
    let ghost vm = variant.model();
    let outer: Option<ParquetConfig> = match outer_parquet {
        Some(p) => Some(*p),
        None => None,
    };
    let own: Option<RefsSpec> = match refs {
        Some(s) => Some(s.clone()),
        None => None,
    };
    let ghost rm = opt_refs_spec_model(own);
    let last: usize = path.len() - 1;
    let mut r = Field::default();
    r.name = path[last].clone();
    r.field_type = infer_field_type(variant);
    r.refs = own;
    r.generator = variant.generator;
    r.locale = variant.locale;
    r.range = variant.range;
    r.value = clone_opt_yaml_value(&variant.value);
    r.parquet = if variant.parquet.is_some() {
        variant.parquet
    } else {
        outer
    };
    assert(r.model() == leaf_field(pm[last as int], vm, outer, rm));
    let mut k: usize = last;
    assert(pm.subrange(k as int, pm.len() as int)[0] == pm[k as int]);
    while k > 0
        invariant
            k < path.len(),
            pm == texts(path@),
            r.model() == delta_field(pm.subrange(k as int, pm.len() as int), vm, outer, rm),
        decreases k,
    {
        let ghost inner = r.model();
        let mut w = Field::default();
        w.name = path[k - 1].clone();
        w.field_type = Some(FieldType::Object);
        let mut fields: Vec<Field> = Vec::new();
        fields.push(r);
        w.fields = fields;
        proof {
            assert(w.model().fields =~= seq![inner]);
            assert(w.model() == wrapped(pm[k - 1], inner));
            let now = pm.subrange(k - 1, pm.len() as int);
            assert(now[0] == pm[k - 1]);
            assert(now.subrange(1, now.len() as int) =~= pm.subrange(k as int, pm.len() as int));
        }
        r = w;
        k -= 1;
    }
    assert(pm.subrange(0, pm.len() as int) =~= pm);
    r
}

// ---------------------------------------------------------------------------
// Merging schemas
// ---------------------------------------------------------------------------

/// A schema with one field merged in: objects of the same name are merged deeply, any other field
/// of that name is replaced, and a new field comes last.
pub open spec fn merged_into(s: Seq<FieldModel>, f: FieldModel) -> Seq<FieldModel>
    decreases f, 0int,
{
    match field_position(s, f.name, 0) {
        Some(i) => if s[i].field_type == Some(FieldType::Object) && f.field_type == Some(
            FieldType::Object,
        ) && f.fields.len() > 0 {
            s.update(
                i,
                FieldModel {
                    fields: merged_schemas(s[i].fields, f.fields, f.fields.len() as int),
                    ..s[i]
                },
            )
        } else {
            s.update(i, f)
        },
        None => s.push(f),
    }
}

/// A schema with the first `n` fields of `delta` merged in, one after the other.
pub open spec fn merged_schemas(base: Seq<FieldModel>, delta: Seq<FieldModel>, n: int) -> Seq<
    FieldModel,
>
    decreases delta, n,
{
    if n <= 0 || n > delta.len() {
        base
    } else {
        merged_into(merged_schemas(base, delta, n - 1), delta[n - 1])
    }
}

fn merged_field_in(schema: &Vec<Field>, field: &Field) -> (r: Vec<Field>)
    ensures
        fields_model(r@) == merged_into(fields_model(schema@), field.model()),
    decreases field,
{
    let ghost sm = fields_model(schema@);
    let mut r = clone_fields(schema);
    match find_field(schema, &field.name) {
        Some(i) => {
            assert(sm[i as int] == schema[i as int].model());
            if schema[i].field_type == Some(FieldType::Object) && field.field_type == Some(
                FieldType::Object,
            ) && field.fields.len() > 0 {
                let inner = deep_merge_schemas(&schema[i].fields, &field.fields);
                let mut f = schema[i].clone();
                f.fields = inner;
                assert(f.model() == (FieldModel {
                    fields: merged_schemas(
                        sm[i as int].fields,
                        field.model().fields,
                        field.model().fields.len() as int,
                    ),
                    ..sm[i as int]
                }));
                r.set(i, f);
                assert(fields_model(r@) =~= sm.update(i as int, f.model()));
            } else {
                let f = field.clone();
                r.set(i, f);
                assert(fields_model(r@) =~= sm.update(i as int, f.model()));
            }
        },
        None => {
            let f = field.clone();
            r.push(f);
            assert(fields_model(r@) =~= sm.push(f.model()));
        },
    }
    r
}

/// Merges `delta` deeply onto `base`.
pub fn deep_merge_schemas(base: &Vec<Field>, delta: &Vec<Field>) -> (r: Vec<Field>)
    ensures
        fields_model(r@) == merged_schemas(
            fields_model(base@),
            fields_model(delta@),
            delta.len() as int,
        ),
    decreases delta,
{
    let ghost bm = fields_model(base@);
    let ghost dm = fields_model(delta@);
    let mut r = clone_fields(base);
    let mut i: usize = 0;
    while i < delta.len()
        invariant
            i <= delta.len(),
            dm == fields_model(delta@),
            fields_model(r@) == merged_schemas(bm, dm, i as int),
        decreases delta.len() - i,
    {
        assert(dm[i as int] == delta[i as int].model());
        r = merged_field_in(&r, &delta[i]);
        i += 1;
    }
    r
}

/// Merges one field into a schema, see [`merged_into`].
pub fn merge_delta_into(schema: &mut Vec<Field>, field: Field)
    ensures
        fields_model(final(schema)@) == merged_into(fields_model(old(schema)@), field.model()),
{
    let r = merged_field_in(&*schema, &field);
    *schema = r;
}

/// Merging never loses a name: a field that was there keeps its place and its name.
pub proof fn law_merge_keeps_names(s: Seq<FieldModel>, f: FieldModel, i: int)
    requires
        0 <= i < s.len(),
    ensures
        merged_into(s, f).len() >= s.len(),
        merged_into(s, f)[i].name == s[i].name,
        field_position(merged_into(s, f), f.name, 0) is Some,
{
    lemma_field_position(s, f.name, 0);
    let r = merged_into(s, f);
    match field_position(s, f.name, 0) {
        Some(p) => {
            assert(r[p].name == f.name);
            lemma_field_position(r, f.name, 0);
        },
        None => {
            assert(r[s.len() as int].name == f.name);
            lemma_field_position(r, f.name, 0);
        },
    }
}

/// A found field has the name, and a missing name is nobody's.
pub proof fn lemma_field_position(s: Seq<FieldModel>, name: Seq<char>, i: int)
    requires
        0 <= i,
    ensures
        match field_position(s, name, i) {
            Some(p) => i <= p < s.len() && s[p].name == name,
            None => forall|j: int| i <= j < s.len() ==> (#[trigger] s[j]).name != name,
        },
    decreases s.len() - i,
{
    if i < s.len() {
        lemma_field_position(s, name, i + 1);
    }
}

// ---------------------------------------------------------------------------
// Combinations
// ---------------------------------------------------------------------------

/// `delta` with each of the first `j` choices of one field merged in.
pub open spec fn with_choices(delta: Seq<FieldModel>, p: VariantPathModel, j: int) -> Seq<
    Seq<FieldModel>,
>
    decreases j,
{
    if j <= 0 {
        Seq::empty()
    } else {
        with_choices(delta, p, j - 1).push(
            merged_into(delta, delta_field(p.path, p.choices[j - 1], p.parquet, p.refs)),
        )
    }
}

/// The first `c` combinations, each with every choice of one more field.
pub open spec fn extended(combos: Seq<Seq<FieldModel>>, p: VariantPathModel, c: int) -> Seq<
    Seq<FieldModel>,
>
    decreases c,
{
    if c <= 0 {
        Seq::empty()
    } else {
        extended(combos, p, c - 1) + with_choices(combos[c - 1], p, p.choices.len() as int)
    }
}

/// Every combination of choices of the first `n` fields; the last field varies fastest.
pub open spec fn combinations(paths: Seq<VariantPathModel>, n: int) -> Seq<Seq<FieldModel>>
    decreases n,
{
    if n <= 0 {
        seq![Seq::empty()]
    } else {
        let before = combinations(paths, n - 1);
        extended(before, paths[n - 1], before.len() as int)
    }
}

/// The variants of a dataset: one for each combination, with its share of the rows.
pub open spec fn variants_of(paths: Seq<VariantPathModel>, joint: Seq<Num>) -> Seq<
    VariantSchemaModel,
> {
    let combos = combinations(paths, paths.len() as int);
    Seq::new(
        combos.len(),
        |c: int|
            VariantSchemaModel {
                data: combos[c],
                locale: None,
                ratio: if c < joint.len() {
                    Some(joint[c])
                } else {
                    None
                },
            },
    )
}

fn extend_combinations(combos: &Vec<Vec<Field>>, p: &VariantPath) -> (r: Vec<Vec<Field>>)
    requires
        p.path.len() > 0,
    ensures
        schemas_model(r@) == extended(schemas_model(combos@), p.model(), combos.len() as int),
{
    let ghost cm = schemas_model(combos@);
    let ghost pm = p.model();
    let outer: Option<&ParquetConfig> = match &p.parquet {
        Some(c) => Some(c),
        None => None,
    };
    let refs: Option<&RefsSpec> = match &p.refs {
        Some(s) => Some(s),
        None => None,
    };
    let mut r: Vec<Vec<Field>> = Vec::new();
    let mut c: usize = 0;
    assert(schemas_model(r@) =~= Seq::empty());
    while c < combos.len()
        invariant
            c <= combos.len(),
            p.path.len() > 0,
            cm == schemas_model(combos@),
            pm == p.model(),
            outer == (match p.parquet {
                Some(c) => Some(&c),
                None => None,
            }),
            refs == (match p.refs {
                Some(c) => Some(&c),
                None => None,
            }),
            schemas_model(r@) == extended(cm, pm, c as int),
        decreases combos.len() - c,
    {
        let delta = &combos[c];
        assert(cm[c as int] == fields_model(delta@));
        let ghost start = schemas_model(r@);
        let mut j: usize = 0;
        assert(schemas_model(r@) =~= start + with_choices(cm[c as int], pm, 0));
        while j < p.choices.len()
            invariant
                j <= p.choices.len(),
                p.path.len() > 0,
                pm == p.model(),
                c < combos.len(),
                cm[c as int] == fields_model(delta@),
                outer == (match p.parquet {
                    Some(c) => Some(&c),
                    None => None,
                }),
                refs == (match p.refs {
                    Some(c) => Some(&c),
                    None => None,
                }),
                schemas_model(r@) == start + with_choices(cm[c as int], pm, j as int),
            decreases p.choices.len() - j,
        {
            assert(pm.choices[j as int] == p.choices[j as int].model());
            let field = build_delta_field(&p.path, &p.choices[j], outer, refs);
            let next = merged_field_in(delta, &field);
            let ghost before = r@;
            r.push(next);
            assert(schemas_model(r@) =~= schemas_model(before).push(fields_model(next@)));
            j += 1;
            assert(schemas_model(r@) =~= start + with_choices(cm[c as int], pm, j as int));
        }
        c += 1;
    }
    r
}

fn build_local_combinations(paths: &Vec<VariantPath>, joint: &Vec<Num>) -> (r: Vec<VariantSchema>)
    requires
        forall|i: int| 0 <= i < paths.len() ==> (#[trigger] paths[i]).path.len() > 0,
    ensures
        variant_schemas_model(r@) == variants_of(paths_model(paths@), joint@),
{
    let ghost pm = paths_model(paths@);
    let mut combos: Vec<Vec<Field>> = Vec::new();
    combos.push(Vec::new());
    assert(schemas_model(combos@) =~= combinations(pm, 0)) by {
        assert(fields_model(combos[0]@) =~= Seq::empty());
    }
    let mut i: usize = 0;
    while i < paths.len()
        invariant
            i <= paths.len(),
            pm == paths_model(paths@),
            forall|i: int| 0 <= i < paths.len() ==> (#[trigger] paths[i]).path.len() > 0,
            schemas_model(combos@) == combinations(pm, i as int),
        decreases paths.len() - i,
    {
        assert(pm[i as int] == paths[i as int].model());
        combos = extend_combinations(&combos, &paths[i]);
        i += 1;
    }
    let ghost all = combinations(pm, pm.len() as int);
    let mut r: Vec<VariantSchema> = Vec::new();
    let mut c: usize = 0;
    while c < combos.len()
        invariant
            c <= combos.len(),
            all == combinations(pm, pm.len() as int),
            all == schemas_model(combos@),
            r.len() == c,
            forall|j: int|
                0 <= j < c ==> (#[trigger] r[j]).model() == variants_of(pm, joint@)[j],
        decreases combos.len() - c,
    {
        let v = VariantSchema {
            data: clone_fields(&combos[c]),
            locale: None,
            ratio: if c < joint.len() {
                Some(joint[c])
            } else {
                None
            },
        };
        assert(all[c as int] == fields_model(combos[c as int]@));
        assert(v.model() == variants_of(pm, joint@)[c as int]);
        r.push(v);
        c += 1;
    }
    assert(variant_schemas_model(r@) =~= variants_of(pm, joint@));
    r
}

/// How many combinations the first `n` fields have.
pub open spec fn combination_count(paths: Seq<VariantPathModel>, n: int) -> int
    decreases n,
{
    if n <= 0 {
        1
    } else {
        combination_count(paths, n - 1) * paths[n - 1].choices.len()
    }
}

/// There is one combination for every way to pick one choice of each field.
pub proof fn law_one_combination_per_pick(paths: Seq<VariantPathModel>, n: int)
    requires
        0 <= n <= paths.len(),
    ensures
        combinations(paths, n).len() == combination_count(paths, n),
    decreases n,
{
    if n > 0 {
        law_one_combination_per_pick(paths, n - 1);
        let before = combinations(paths, n - 1);
        lemma_extended_len(before, paths[n - 1], before.len() as int);
    }
}

proof fn lemma_extended_len(combos: Seq<Seq<FieldModel>>, p: VariantPathModel, c: int)
    requires
        0 <= c <= combos.len(),
    ensures
        extended(combos, p, c).len() == c * p.choices.len(),
    decreases c,
{
    if c > 0 {
        lemma_extended_len(combos, p, c - 1);
        lemma_with_choices_len(combos[c - 1], p, p.choices.len() as int);
        assert((c - 1) * p.choices.len() + p.choices.len() == c * p.choices.len())
            by (nonlinear_arith);
    } else {
        assert(0 * p.choices.len() == 0) by (nonlinear_arith);
    }
}

proof fn lemma_with_choices_len(delta: Seq<FieldModel>, p: VariantPathModel, j: int)
    requires
        0 <= j,
    ensures
        with_choices(delta, p, j).len() == j,
    decreases j,
{
    if j > 0 {
        lemma_with_choices_len(delta, p, j - 1);
    }
}

// ---------------------------------------------------------------------------
// Finishing
// ---------------------------------------------------------------------------

/// A field after expansion: choices that specialise a reference are gone, other choices give the
/// field their shared type, and objects are finished inside.
pub open spec fn finished(f: FieldModel) -> FieldModel
    decreases f,
{
    if f.variants.len() > 0 {
        if f.refs is Some {
            FieldModel { variants: Seq::empty(), ..f }
        } else {
            FieldModel { field_type: shared_type(f.variants), ..f }
        }
    } else if f.field_type == Some(FieldType::Object) {
        FieldModel { fields: finished_all(f.fields), ..f }
    } else {
        f
    }
}

/// Fields after expansion.
pub open spec fn finished_all(s: Seq<FieldModel>) -> Seq<FieldModel>
    decreases s,
{
    Seq::new(
        s.len(),
        |i: int|
            if 0 <= i < s.len() {
                finished(s[i])
            } else {
                arbitrary()
            },
    )
}

fn finalize_field(field: &Field) -> (r: Field)
    ensures
        r.model() == finished(field.model()),
    decreases field,
{
    let mut r = field.clone();
    if field.variants.len() > 0 {
        if field.refs.is_some() {
            r.variants = Vec::new();
            assert(r.model().variants =~= Seq::empty());
        } else {
            r.field_type = unified_variant_type(&field.variants);
        }
        assert(r.model() == finished(field.model()));
    } else if field.field_type == Some(FieldType::Object) {
        let fields = finalize_variant_fields(&field.fields);
        r.fields = fields;
        assert(r.model().fields == finished(field.model()).fields);
        assert(r.model() == finished(field.model()));
    }
    r
}

fn finalize_variant_fields(schema: &Vec<Field>) -> (r: Vec<Field>)
    ensures
        fields_model(r@) == finished_all(fields_model(schema@)),
    decreases schema,
{
    let ghost fm = fields_model(schema@);
    let mut r: Vec<Field> = Vec::new();
    let mut i: usize = 0;
    while i < schema.len()
        invariant
            i <= schema.len(),
            fm == fields_model(schema@),
            r.len() == i,
            forall|j: int| 0 <= j < i ==> (#[trigger] r[j]).model() == finished(schema[j].model()),
        decreases schema.len() - i,
    {
        let f = finalize_field(&schema[i]);
        r.push(f);
        i += 1;
    }
    proof {
        assert forall|j: int| 0 <= j < fm.len() implies #[trigger] fields_model(r@)[j]
            == finished_all(fm)[j] by {
            assert(fm[j] == schema[j].model());
        }
    }
    assert(fields_model(r@) =~= finished_all(fm));
    r
}

// ---------------------------------------------------------------------------
// Expansion
// ---------------------------------------------------------------------------

/// The specialising fields of a dataset.
pub open spec fn specialised(data: Seq<FieldModel>) -> Seq<VariantPathModel> {
    let low = lowered_all(data);
    variant_paths(low, Seq::empty(), low.len() as int)
}

/// The specialising fields of a dataset, whose choices are combined into its variants.
pub fn specialised_fields(data: &Vec<Field>) -> (r: Vec<VariantPath>)
    ensures
        paths_model(r@) == specialised(fields_model(data@)),
        forall|i: int| 0 <= i < r.len() ==> (#[trigger] r[i]).path.len() > 0,
{
    let low = lower_heterogeneous_unions(data);
    let prefix: Vec<String> = Vec::new();
    assert(texts(prefix@) =~= Seq::empty());
    let r = collect_variant_paths(&low, &prefix);
    proof {
        let lm = fields_model(low@);
        assert forall|i: int| 0 <= i < r.len() implies (#[trigger] r[i]).path.len() > 0 by {
            lemma_paths_not_empty(lm, Seq::empty(), lm.len() as int, i);
            assert(paths_model(r@)[i] == r[i].model());
        }
    }
    r
}

proof fn lemma_paths_not_empty(s: Seq<FieldModel>, prefix: Seq<Seq<char>>, n: int, i: int)
    requires
        0 <= i < variant_paths(s, prefix, n).len(),
    ensures
        variant_paths(s, prefix, n)[i].path.len() > 0,
    decreases s, n,
{
    if 0 < n <= s.len() {
        let before = variant_paths(s, prefix, n - 1);
        let f = s[n - 1];
        if i < before.len() {
            lemma_paths_not_empty(s, prefix, n - 1, i);
        } else if !(f.refs is Some && f.variants.len() > 0) && f.field_type == Some(
            FieldType::Object,
        ) {
            let path = prefix.push(f.name);
            lemma_paths_not_empty(f.fields, path, f.fields.len() as int, i - before.len());
        }
    }
}

/// A dataset after its variant fields have been expanded.
pub open spec fn expanded(e: DatasetEntryModel, joint: Seq<Num>) -> DatasetEntryModel {
    let paths = specialised(e.dataset.data);
    DatasetEntryModel {
        dataset: SyntheticDatasetModel {
            variants: if paths.len() > 0 {
                variants_of(paths, joint)
            } else {
                e.dataset.variants
            },
            data: finished_all(lowered_all(e.dataset.data)),
            ..e.dataset
        },
        ..e
    }
}

/// The shares of the combinations of one dataset.
pub open spec fn shares_at(joint: Seq<Vec<Num>>, i: int) -> Seq<Num> {
    if 0 <= i < joint.len() {
        joint[i]@
    } else {
        Seq::empty()
    }
}

/// Expands the variant fields of every dataset. `joint` holds, for each dataset, the share of
/// each combination of its specialising fields.
pub fn expand_field_variants(datasets: &Vec<DatasetEntry>, joint: &Vec<Vec<Num>>) -> (r: Vec<
    DatasetEntry,
>)
    ensures
        entries_model(r@) == Seq::new(
            datasets@.len(),
            |i: int| expanded(datasets@[i].model(), shares_at(joint@, i)),
        ),
{
    let mut r: Vec<DatasetEntry> = Vec::new();
    let none: Vec<Num> = Vec::new();
    let mut i: usize = 0;
    while i < datasets.len()
        invariant
            i <= datasets.len(),
            none@ == Seq::<Num>::empty(),
            r.len() == i,
            forall|j: int|
                0 <= j < i ==> (#[trigger] r[j]).model() == expanded(
                    datasets[j].model(),
                    shares_at(joint@, j),
                ),
        decreases datasets.len() - i,
    {
        let ds = &datasets[i].dataset;
        let shares = if i < joint.len() {
            &joint[i]
        } else {
            &none
        };
        let paths = specialised_fields(&ds.data);
        let low = lower_heterogeneous_unions(&ds.data);
        let mut next = ds.clone();
        if paths.len() > 0 {
            next.variants = build_local_combinations(&paths, shares);
        }
        next.data = finalize_variant_fields(&low);
        let e = DatasetEntry { path: datasets[i].path.clone(), dataset: next };
        assert(e.model() == expanded(datasets[i as int].model(), shares_at(joint@, i as int)));
        r.push(e);
        i += 1;
    }
    assert(entries_model(r@) =~= Seq::new(
        datasets@.len(),
        |i: int| expanded(datasets@[i].model(), shares_at(joint@, i)),
    ));
    r
}

} // verus!
