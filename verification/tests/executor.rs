//! Columns of existing rows, and unions on their way to a file.
use std::sync::Arc;

use arrow::array::{
    Array, ArrayRef, Float64Array, Int32Array, RecordBatch, StringArray, StructArray, UInt32Array,
    UnionArray,
};
use arrow::buffer::ScalarBuffer;
use arrow::compute::take;
use arrow::datatypes::{
    DataType, Field as ArrowField, Fields, Schema as ArrowSchema, UnionFields, UnionMode,
};
use fakeset::assembly::{pad_or_generate_tail, TailPlan};
use fakeset::generator::{generate_column_raw, ColumnRecipe, Constant};
use fakeset::message::Problem;
use fakeset::models::{Field, FieldType, Format, ParquetDatatype, YamlValue};
use fakeset::output::{
    active_cases, case_rows, filter_hidden_columns, prepare_output_batch, OutSource,
};
use fakeset::schema::{ColumnField, ColumnType};

/// A column of a constant text field.
fn generated(field: &Field, n: usize) -> ArrayRef {
    match generate_column_raw(field, n, &vec![]).unwrap().recipe {
        ColumnRecipe::Constant(Constant::Text(s)) => Arc::new(StringArray::from(vec![s; n])),
        other => panic!("unexpected recipe {other:?}"),
    }
}

fn tailed(field: &Field, base: ArrayRef, target: usize) -> ArrayRef {
    match pad_or_generate_tail(base.len(), target) {
        TailPlan::Keep => base,
        TailPlan::Truncate(n) => {
            let idx = UInt32Array::from((0..n as u32).collect::<Vec<u32>>());
            take(&base, &idx, None).unwrap()
        }
        TailPlan::Generate(n) => arrow::compute::concat(&[base.as_ref(), generated(field, n).as_ref()]).unwrap(),
    }
}

fn projected(batch: &RecordBatch, fields: &Vec<Field>) -> RecordBatch {
    let names: Vec<String> =
        batch.schema().fields().iter().map(|f| f.name().clone()).collect();
    batch.project(&filter_hidden_columns(&names, fields)).expect("project a union column")
}

/// The column type that an Arrow type stands for.
fn kind_of(dt: &DataType) -> ColumnType {
    let fields = |fs: &Fields| -> Vec<ColumnField> { fs.iter().map(|f| column_of(f)).collect() };
    match dt {
        DataType::Int32 => ColumnType::Plain(ParquetDatatype::Int32),
        DataType::Float64 => ColumnType::Plain(ParquetDatatype::Float64),
        DataType::Utf8 => ColumnType::Plain(ParquetDatatype::Utf8),
        DataType::Struct(fs) => ColumnType::Struct(fields(fs)),
        DataType::Union(fs, _) => {
            ColumnType::Union(fs.iter().map(|(_, f)| column_of(f)).collect())
        }
        other => panic!("no column type for {other:?}"),
    }
}

fn column_of(f: &ArrowField) -> ColumnField {
    ColumnField { name: f.name().clone(), kind: kind_of(f.data_type()) }
}

fn union_of(col: &ArrayRef) -> &UnionArray {
    col.as_any().downcast_ref::<UnionArray>().expect("a union column")
}

/// Rows of a union as positions in the child of one case.
fn rows_of_case(u: &UnionArray, id: i8) -> UInt32Array {
    let ids: Vec<i8> = u.type_ids().to_vec();
    let offsets: Vec<i32> = u.offsets().expect("dense").to_vec();
    UInt32Array::from(case_rows(&ids, &offsets, id))
}

/// An array in portable form.
fn portable(col: &ArrayRef) -> ArrayRef {
    match col.data_type() {
        DataType::Union(fs, _) => {
            let u = union_of(col);
            let parts: Vec<(Arc<ArrowField>, ArrayRef)> = fs
                .iter()
                .map(|(id, f)| {
                    let a = portable(&take(u.child(id), &rows_of_case(u, id), None).unwrap());
                    (Arc::new(ArrowField::new(f.name(), a.data_type().clone(), true)), a)
                })
                .collect();
            Arc::new(StructArray::from(parts))
        }
        DataType::Struct(fs) => {
            let s = col.as_any().downcast_ref::<StructArray>().unwrap();
            let arrays: Vec<ArrayRef> = s.columns().iter().map(portable).collect();
            let fields: Vec<ArrowField> = fs
                .iter()
                .zip(&arrays)
                .map(|(f, a)| ArrowField::new(f.name(), a.data_type().clone(), true))
                .collect();
            Arc::new(StructArray::new(fields.into(), arrays, s.nulls().cloned()))
        }
        _ => col.clone(),
    }
}

fn case_id(u: &UnionArray, case: usize) -> i8 {
    let DataType::Union(fs, _) = u.data_type() else { panic!("a union type") };
    fs.iter().nth(case).unwrap().0
}

fn array_for(batch: &RecordBatch, source: OutSource) -> ArrayRef {
    match source {
        OutSource::Whole(i) => portable(batch.column(i)),
        OutSource::Entry { column, entry } => {
            let s = batch.column(column).as_any().downcast_ref::<StructArray>().unwrap();
            portable(s.column(entry))
        }
        OutSource::CaseEntry { column, case, entry } => {
            let u = union_of(batch.column(column));
            let id = case_id(u, case);
            let s = u.child(id).as_any().downcast_ref::<StructArray>().unwrap();
            portable(&take(s.column(entry), &rows_of_case(u, id), None).unwrap())
        }
        OutSource::Case { column, case } => {
            let u = union_of(batch.column(column));
            let id = case_id(u, case);
            take(u.child(id), &rows_of_case(u, id), None).unwrap()
        }
        OutSource::Tag(column) => {
            let u = union_of(batch.column(column));
            let DataType::Union(fs, _) = u.data_type() else { panic!("a union type") };
            let ids: Vec<i8> = fs.iter().map(|(id, _)| id).collect();
            let labels: Vec<String> = fs.iter().map(|(_, f)| f.name().clone()).collect();
            let active = active_cases(&u.type_ids().to_vec(), &ids);
            let tags: Vec<Option<String>> =
                active.iter().map(|c| c.map(|k| labels[k].clone())).collect();
            Arc::new(StringArray::from(tags))
        }
    }
}

/// Lays a batch out for writing.
fn lay_out(batch: &RecordBatch, fields: &[Field], format: Format) -> Result<RecordBatch, Problem> {
    let columns: Vec<ColumnField> = batch.schema().fields().iter().map(|f| column_of(f)).collect();
    let shown: Vec<String> =
        batch.schema().fields().iter().map(|f| format!("{:?}", f.data_type())).collect();
    let outs = prepare_output_batch(&columns, &shown, &fields.to_vec(), format)?;
    let mut out_fields = Vec::new();
    let mut arrays = Vec::new();
    for o in &outs {
        let a = array_for(batch, o.source);
        assert_eq!(format!("{:?}", kind_of(a.data_type())), format!("{:?}", o.kind));
        out_fields.push(ArrowField::new(&o.name, a.data_type().clone(), true));
        arrays.push(a);
    }
    Ok(RecordBatch::try_new(Arc::new(ArrowSchema::new(out_fields)), arrays).unwrap())
}

fn constant_field(name: &str, value: &str) -> Field {
    Field {
        name: name.to_string(),
        field_type: Some(FieldType::String),
        value: Some(YamlValue::Text(value.to_string())),
        ..Default::default()
    }
}

fn string_col(values: &[&str]) -> ArrayRef {
    Arc::new(StringArray::from(
        values.iter().map(|s| s.to_string()).collect::<Vec<_>>(),
    ))
}

fn read_strings(arr: &ArrayRef) -> Vec<String> {
    let sa = arr.as_any().downcast_ref::<StringArray>().unwrap();
    (0..sa.len()).map(|i| sa.value(i).to_string()).collect()
}

#[test]
fn pad_or_generate_tail_returns_base_when_lengths_match() {
    let field = constant_field("c", "pad");
    let base = string_col(&["a", "b", "c"]);
    let out = tailed(&field, base, 3);
    assert_eq!(read_strings(&out), vec!["a", "b", "c"]);
}

#[test]
fn pad_or_generate_tail_truncates_when_base_is_longer() {
    let field = constant_field("c", "pad");
    let base = string_col(&["a", "b", "c", "d", "e"]);
    let out = tailed(&field, base, 3);
    // Truncated via take to exactly the first `target_n` rows.
    assert_eq!(read_strings(&out), vec!["a", "b", "c"]);
}

#[test]
fn pad_or_generate_tail_pads_when_base_is_shorter() {
    // The precomputed batch may be a row or two short of the segment, so the tail is
    // freshly generated and concatenated.
    let field = constant_field("c", "pad");
    let base = string_col(&["a", "b"]);
    let out = tailed(&field, base, 5);
    // First two rows from the precomputed batch; the remaining three are the
    // freshly generated constant from the field definition.
    assert_eq!(read_strings(&out), vec!["a", "b", "pad", "pad", "pad"]);
}

/// A 6-row batch: an `id` Int32 column + a dense union `u` with three case types
/// (Utf8, Float64, Struct{a:Int32}) — two rows each, covering the scalar-mixed and
/// object-schema cases at once.
fn union_batch() -> RecordBatch {
    let union_fields: UnionFields = [
        (0_i8, Arc::new(ArrowField::new("s", DataType::Utf8, false))),
        (
            1_i8,
            Arc::new(ArrowField::new("n", DataType::Float64, false)),
        ),
        (
            2_i8,
            Arc::new(ArrowField::new(
                "o",
                DataType::Struct(
                    vec![Arc::new(ArrowField::new("a", DataType::Int32, false))].into(),
                ),
                false,
            )),
        ),
    ]
    .into_iter()
    .collect();

    let strings: ArrayRef = Arc::new(StringArray::from(vec!["a", "b"]));
    let numbers: ArrayRef = Arc::new(Float64Array::from(vec![1.0, 2.0]));
    let structs: ArrayRef = Arc::new(StructArray::from(vec![(
        Arc::new(ArrowField::new("a", DataType::Int32, false)),
        Arc::new(Int32Array::from(vec![10, 20])) as ArrayRef,
    )]));

    // Dense union: type_ids pick the case per slot; offsets index into that child.
    let type_ids = ScalarBuffer::<i8>::from(vec![0, 1, 2, 0, 1, 2]);
    let offsets = ScalarBuffer::<i32>::from(vec![0, 0, 0, 1, 1, 1]);
    let union = UnionArray::try_new(
        union_fields.clone(),
        type_ids,
        Some(offsets),
        vec![strings, numbers, structs],
    )
    .expect("build dense union");

    let schema = Arc::new(ArrowSchema::new(vec![
        ArrowField::new("id", DataType::Int32, false),
        ArrowField::new("u", DataType::Union(union_fields, UnionMode::Dense), false),
    ]));
    RecordBatch::try_new(
        schema,
        vec![
            Arc::new(Int32Array::from(vec![0, 1, 2, 3, 4, 5])),
            Arc::new(union),
        ],
    )
    .expect("build batch")
}

#[test]
fn denseunion_survives_filter_hidden_columns() {
    let fields = vec![
        Field {
            name: "id".into(),
            hidden: true,
            ..Default::default()
        },
        Field {
            name: "u".into(),
            hidden: false,
            ..Default::default()
        },
    ];
    let out = projected(&union_batch(), &fields);
    assert!(out.column_by_name("id").is_none(), "hidden column dropped");
    assert!(out.column_by_name("u").is_some(), "union column kept");
    assert_eq!(out.num_rows(), 6);
}

/// The union → nullable-superset struct conversion has the right shape —
/// one sub-field per case, and **exactly one** sub-field non-null per row (so the
/// populated sub-field is an unambiguous case tag).
#[test]
fn unionize_for_output_is_nullable_superset() {
    let portable = lay_out(&union_batch(), &[], Format::Parquet).unwrap();
    let s = portable
        .column_by_name("u")
        .unwrap()
        .as_any()
        .downcast_ref::<StructArray>()
        .expect("union column lowered to a struct");
    assert_eq!(s.num_columns(), 3, "one sub-field per case");
    assert_eq!(s.len(), 6);
    for r in 0..s.len() {
        let non_null = (0..s.num_columns())
            .filter(|&c| s.column(c).is_valid(r))
            .count();
        assert_eq!(non_null, 1, "row {r} must populate exactly one case");
    }
}
