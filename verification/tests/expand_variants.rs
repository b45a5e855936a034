//! Variant fields: unions, and cases drawn row by row.
use std::sync::Arc;

use arrow::array::{Array, ArrayRef, Float64Array, StringArray, StructArray, UnionArray};
use arrow::buffer::ScalarBuffer;
use arrow::datatypes::{DataType, Field as ArrowField, UnionFields};
use fake::Fake;
use fakeset::expand_variants::{
    build_delta_field, expand_field_variants, infer_field_type, is_heterogeneous,
};
use fakeset::generator::{draw_categorical, fake_string, generate_column_raw, scatter, ColumnRecipe, TextDraw};
use fakeset::models::{
    DatasetEntry, Field, FieldType, FieldVariant, Format, Num, ParquetConfig, ParquetDatatype,
    Range, SyntheticDataset, YamlValue,
};

fn num(x: f64) -> Num {
    Num::from_bits(x.to_bits())
}

fn make_variant_field(name: &str, choices: Vec<FieldVariant>) -> Field {
    Field {
        name: name.to_string(),
        field_type: Some(FieldType::Variant),
        variants: choices,
        ..Default::default()
    }
}

fn string_choice(val: &str, dist: Option<f64>) -> FieldVariant {
    FieldVariant {
        field_type: Some(FieldType::String),
        value: Some(YamlValue::Text(val.to_string())),
        ratio: dist.map(num),
        ..Default::default()
    }
}

fn bare_ds(data: Vec<Field>) -> SyntheticDataset {
    SyntheticDataset {
        name: "test".into(),
        format: Format::Csv,
        output: None,
        outputs: vec![],
        rows: Some(100),
        locale: None,
        include_spec: None,
        import: None,
        links: vec![],
        data,
        variants: vec![],
    }
}

fn expand(ds: SyntheticDataset) -> SyntheticDataset {
    let entries = vec![DatasetEntry { path: "/a/test.yaml".into(), dataset: ds }];
    expand_field_variants(&entries, &vec![]).pop().unwrap().dataset
}

/// A column of one case, by the recipe of its field.
fn case_column(f: &Field, n: usize) -> ArrayRef {
    match generate_column_raw(f, n, &vec![]).unwrap().recipe {
        ColumnRecipe::Record => {
            let sub = &f.fields[0];
            Arc::new(StructArray::from(vec![(
                Arc::new(ArrowField::new(&sub.name, DataType::Utf8, true)),
                case_column(sub, n),
            )]))
        }
        ColumnRecipe::Numbers { .. } => Arc::new(Float64Array::from(vec![1.0; n])),
        ColumnRecipe::Constant(_) => Arc::new(StringArray::from(vec!["x"; n])),
        ColumnRecipe::Texts => {
            let texts: Vec<String> = (0..n)
                .map(|_| match fake_string(f.generator, f.locale, &f.args) {
                    TextDraw::Text(s) => s,
                    _ => String::new(),
                })
                .collect();
            Arc::new(StringArray::from(texts))
        }
        other => panic!("unexpected recipe {other:?}"),
    }
}

/// A dense union whose rows draw their case.
fn union_column(f: &Field, n: usize) -> ArrayRef {
    assert!(matches!(generate_column_raw(f, 1, &vec![]).unwrap().recipe, ColumnRecipe::Union));
    let mut sum = 0.0;
    let mut cumulative = Vec::new();
    for c in &f.union_cases {
        sum += f64::from_bits(c.ratio.unwrap().to_bits());
        cumulative.push(num(sum));
    }
    let draws: Vec<Num> = (0..n).map(|_| num((0.0..1.0).fake::<f64>())).collect();
    let (cases, counts) = draw_categorical(&cumulative, &draws);
    let offsets = scatter(&cases, f.union_cases.len());
    let children: Vec<ArrayRef> = f
        .union_cases
        .iter()
        .zip(&counts)
        .map(|(c, &k)| case_column(&c.field, k))
        .collect();
    let fields: UnionFields = f
        .union_cases
        .iter()
        .zip(&children)
        .enumerate()
        .map(|(i, (c, a))| {
            (i as i8, Arc::new(ArrowField::new(&c.field.name, a.data_type().clone(), true)))
        })
        .collect();
    let ids: ScalarBuffer<i8> = cases.iter().map(|&c| c as i8).collect();
    let offs: ScalarBuffer<i32> = offsets.iter().map(|&o| o as i32).collect();
    Arc::new(UnionArray::try_new(fields, ids, Some(offs), children).unwrap())
}

#[test]
fn single_same_type_variant_stays_per_row() {
    // A same-type variant field no longer cross-products into
    // `dataset.variants`; it keeps its cases (typed) for per-row generation.
    let ds = bare_ds(vec![make_variant_field(
        "status",
        vec![
            string_choice("active", Some(0.6)),
            string_choice("inactive", Some(0.4)),
        ],
    )]);

    let ds = expand(ds);

    assert!(ds.variants.is_empty(), "no top-level cross-product");
    let status = ds.data.iter().find(|f| f.name == "status").unwrap();
    assert_eq!(
        status.field_type,
        Some(FieldType::String),
        "unified concrete type set for schema/refs"
    );
    assert_eq!(
        status.variants.len(),
        2,
        "cases retained for per-row generation"
    );
}

#[test]
fn two_same_type_variants_stay_independent_per_row() {
    let ds = bare_ds(vec![
        make_variant_field(
            "status",
            vec![
                string_choice("active", Some(0.6)),
                string_choice("inactive", Some(0.4)),
            ],
        ),
        make_variant_field(
            "tier",
            vec![
                string_choice("gold", Some(0.2)),
                string_choice("silver", Some(0.3)),
                string_choice("bronze", Some(0.5)),
            ],
        ),
    ]);

    let ds = expand(ds);

    // Independent per-row columns — no Cartesian pre-enumeration.
    assert!(ds.variants.is_empty(), "no cross-product");
    assert_eq!(
        ds.data
            .iter()
            .find(|f| f.name == "status")
            .unwrap()
            .variants
            .len(),
        2
    );
    assert_eq!(
        ds.data
            .iter()
            .find(|f| f.name == "tier")
            .unwrap()
            .variants
            .len(),
        3
    );
}

#[test]
fn free_distributions_retained_for_per_row_resolution() {
    // Distributions are resolved at generation time (per-row); expand just keeps the
    // cases as-is, ratios unset.
    let ds = bare_ds(vec![make_variant_field(
        "x",
        vec![
            FieldVariant {
                field_type: Some(FieldType::String),
                ratio: None,
                ..Default::default()
            },
            FieldVariant {
                field_type: Some(FieldType::String),
                ratio: None,
                ..Default::default()
            },
            FieldVariant {
                field_type: Some(FieldType::String),
                ratio: None,
                ..Default::default()
            },
        ],
    )]);
    let ds = expand(ds);
    assert!(ds.variants.is_empty());
    let x = ds.data.iter().find(|f| f.name == "x").unwrap();
    assert_eq!(x.variants.len(), 3);
    assert!(
        x.variants.iter().all(|v| v.ratio.is_none()),
        "ratios resolved at generation time, not expansion"
    );
}

#[test]
fn nested_same_type_variant_stays_per_row() {
    let nested_variant = make_variant_field(
        "priority",
        vec![
            string_choice("high", Some(0.3)),
            string_choice("low", Some(0.7)),
        ],
    );
    let object_field = Field {
        name: "metadata".to_string(),
        field_type: Some(FieldType::Object),
        fields: vec![nested_variant],
        ..Default::default()
    };

    let ds = bare_ds(vec![object_field]);
    let ds = expand(ds);

    assert!(ds.variants.is_empty());
    let meta = ds.data.iter().find(|f| f.name == "metadata").unwrap();
    let pr = meta.fields.iter().find(|f| f.name == "priority").unwrap();
    assert_eq!(
        pr.field_type,
        Some(FieldType::String),
        "unified type set on the nested variant"
    );
    assert_eq!(
        pr.variants.len(),
        2,
        "nested cases retained for per-row gen"
    );
}

#[test]
fn range_only_variant_infers_number_type() {
    let choice = FieldVariant {
        range: Some(Range {
            min: Some(num(1.0)),
            max: Some(num(10.0)),
        }),
        ratio: Some(num(1.0)),
        ..Default::default()
    };
    let inferred = infer_field_type(&choice);
    assert_eq!(inferred, Some(FieldType::Number));
}

#[test]
fn string_value_variant_infers_string_type() {
    let choice = FieldVariant {
        value: Some(YamlValue::Text("hello".into())),
        ratio: Some(num(1.0)),
        ..Default::default()
    };
    let inferred = infer_field_type(&choice);
    assert_eq!(inferred, Some(FieldType::String));
}

#[test]
fn outer_parquet_propagates_to_delta_when_inner_absent() {
    let outer_parquet = ParquetConfig {
        datatype: ParquetDatatype::Int32,
    };
    let choice = FieldVariant {
        field_type: Some(FieldType::Number),
        range: Some(Range {
            min: Some(num(0.0)),
            max: Some(num(100.0)),
        }),
        ratio: Some(num(1.0)),
        parquet: None,
        ..Default::default()
    };
    let delta = build_delta_field(&vec!["amount".to_string()], &choice, Some(&outer_parquet), None);
    assert_eq!(
        delta.parquet.as_ref().map(|p| &p.datatype),
        Some(&ParquetDatatype::Int32)
    );
}

#[test]
fn inner_parquet_overrides_outer() {
    let outer_parquet = ParquetConfig {
        datatype: ParquetDatatype::Int32,
    };
    let inner_parquet = ParquetConfig {
        datatype: ParquetDatatype::Float32,
    };
    let choice = FieldVariant {
        field_type: Some(FieldType::Number),
        ratio: Some(num(1.0)),
        parquet: Some(inner_parquet),
        ..Default::default()
    };
    let delta = build_delta_field(&vec!["x".to_string()], &choice, Some(&outer_parquet), None);
    assert_eq!(
        delta.parquet.as_ref().map(|p| &p.datatype),
        Some(&ParquetDatatype::Float32)
    );
}

fn number_choice(dist: Option<f64>) -> FieldVariant {
    FieldVariant {
        field_type: Some(FieldType::Number),
        range: Some(Range {
            min: Some(num(0.0)),
            max: Some(num(10.0)),
        }),
        ratio: dist.map(num),
        ..Default::default()
    }
}

fn expand_one(field: Field) -> SyntheticDataset {
    expand(bare_ds(vec![field]))
}

#[test]
fn heterogeneous_variant_lowers_to_union() {
    let ds = expand_one(make_variant_field(
        "payload",
        vec![string_choice("x", Some(0.5)), number_choice(Some(0.5))],
    ));
    // A union is a per-row column, NOT a dataset cross-product.
    assert!(
        ds.variants.is_empty(),
        "heterogeneous variant must not become global variants"
    );
    let f = ds.data.iter().find(|f| f.name == "payload").unwrap();
    assert_eq!(f.field_type, Some(FieldType::Union));
    assert_eq!(f.union_cases.len(), 2);
    assert_eq!(f.union_cases[0].field.field_type, Some(FieldType::String));
    assert_eq!(f.union_cases[1].field.field_type, Some(FieldType::Number));
    assert_eq!(f.union_cases[0].ratio, Some(num(0.5)));
    assert!(f.variants.is_empty(), "variants cleared after lowering");
}

#[test]
fn lowered_union_generates_denseunion_in_memory() {
    let ds = expand_one(make_variant_field(
        "payload",
        vec![string_choice("x", Some(0.5)), number_choice(Some(0.5))],
    ));
    let f = ds.data.iter().find(|f| f.name == "payload").unwrap();

    // Per-row categorical sampling over two 0.5 cases → ~500/500 (not exact).
    let arr = union_column(f, 1000);
    let u = arr
        .as_any()
        .downcast_ref::<UnionArray>()
        .expect("a UnionArray");
    assert_eq!(u.type_ids().len(), 1000);
    let mut hist = std::collections::BTreeMap::new();
    for &t in u.type_ids().iter() {
        *hist.entry(t).or_insert(0) += 1;
    }
    assert!(
        (400..=600).contains(hist.get(&0).unwrap_or(&0)),
        "string case ≈ 500"
    );
    assert!(
        (400..=600).contains(hist.get(&1).unwrap_or(&0)),
        "number case ≈ 500"
    );
}

#[test]
fn homogeneous_variant_generates_per_row() {
    // Same-type variants generate per-row: no cross-product, no
    // union; the field keeps a unified scalar type + its cases.
    let ds = expand_one(make_variant_field(
        "status",
        vec![string_choice("a", Some(0.5)), string_choice("b", Some(0.5))],
    ));
    assert!(
        ds.variants.is_empty(),
        "no cross-product for same-type variants"
    );
    let f = ds.data.iter().find(|f| f.name == "status").unwrap();
    assert_eq!(f.field_type, Some(FieldType::String));
    assert!(f.union_cases.is_empty(), "same-type → not a union");
    assert_eq!(f.variants.len(), 2, "cases retained for per-row generation");
}

/// An object case carrying a single nested string field `sub`.
fn object_choice(sub: &str, dist: Option<f64>) -> FieldVariant {
    FieldVariant {
        field_type: Some(FieldType::Object),
        fields: vec![Field {
            name: sub.into(),
            field_type: Some(FieldType::String),
            ..Default::default()
        }],
        ratio: dist.map(num),
        ..Default::default()
    }
}

#[test]
fn is_heterogeneous_flags_object_and_mixed_scalar() {
    // Two object schemas → union (FieldType::Object alone can't tell them apart).
    assert!(is_heterogeneous(&vec![
        object_choice("a", None),
        object_choice("b", None)
    ]));
    // Mixed scalar → union.
    assert!(is_heterogeneous(&vec![
        string_choice("x", None),
        number_choice(None)
    ]));
    // Same scalar type → not a union.
    assert!(!is_heterogeneous(&vec![
        string_choice("a", None),
        string_choice("b", None)
    ]));
}

#[test]
fn object_schema_variant_lowers_to_union() {
    // The supplier-form shape: two different object schemas → a union of struct cases.
    let ds = expand_one(make_variant_field(
        "form",
        vec![
            object_choice("risk_level", Some(0.5)),
            object_choice("standard_code", Some(0.5)),
        ],
    ));
    assert!(
        ds.variants.is_empty(),
        "object union is not a global variant"
    );
    let f = ds.data.iter().find(|f| f.name == "form").unwrap();
    assert_eq!(f.field_type, Some(FieldType::Union));
    assert_eq!(f.union_cases.len(), 2);
    assert_eq!(f.union_cases[0].field.field_type, Some(FieldType::Object));
    assert_eq!(f.union_cases[0].field.fields[0].name, "risk_level");
    assert_eq!(f.union_cases[1].field.fields[0].name, "standard_code");

    // Generates a DenseUnion whose children are structs.
    let arr = union_column(f, 8);
    let u = arr
        .as_any()
        .downcast_ref::<UnionArray>()
        .expect("a UnionArray");
    assert_eq!(u.type_ids().len(), 8);
}
